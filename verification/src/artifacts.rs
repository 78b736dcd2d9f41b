//! What a step of a pipeline leaves behind: a document that tells how it went.

use crate::frontmatter::{framed, law_split_of_framed};
use crate::pipeline_engine::{error_in, line_value, reported, stamp_in, status_in, StepReportView};
use crate::text::{
    after_prefix, is_space, joined3, lemma_until, lines_of, occurs, occurs_at, replaced, starts,
    stripped, trimmed, trimmed_end, trimmed_start, until, views, without_cr,
};
use crate::time::millis_between;
use vstd::prelude::*;

verus! {

/// One line of the metadata block.
pub open spec fn entry(key: Seq<char>, value: Seq<char>) -> Seq<char> {
    key + ": "@ + value
}

/// A value in quotes.
pub open spec fn quoted(value: Seq<char>) -> Seq<char> {
    "\""@ + value + "\""@
}

/// With quotes escaped.
pub open spec fn escaped(s: Seq<char>) -> Seq<char> {
    replaced(s, "\""@, "\\\""@)
}

/// With quotes escaped, on one line.
pub open spec fn one_line(message: Seq<char>) -> Seq<char> {
    replaced(escaped(message), "\n"@, " "@)
}

/// The metadata block that the lines make up.
pub open spec fn block_of(lines: Seq<Seq<char>>) -> Seq<char>
    decreases lines.len(),
{
    if lines.len() == 0 {
        Seq::empty()
    } else {
        lines[0] + seq!['\n'] + block_of(lines.skip(1))
    }
}

/// The document with these lines of metadata and this body.
pub open spec fn artifact(lines: Seq<Seq<char>>, body: Seq<char>) -> Seq<char> {
    framed(block_of(lines), body)
}

/// One line of the metadata block.
pub fn write_entry(key: &str, value: &str) -> (r: String)
    ensures
        r@ == entry(key@, value@),
{
    joined3(key, ": ", value)
}

/// One line of the metadata block, with the value in quotes.
pub fn write_quoted(key: &str, value: &str) -> (r: String)
    ensures
        r@ == entry(key@, quoted(value@)),
{
    write_entry(key, joined3("\"", value, "\"").as_str())
}

/// With quotes escaped.
pub fn escape(s: &str) -> (r: String)
    ensures
        r@ == escaped(s@),
{
    proof {
        reveal_strlit("\"");
    }
    crate::text::replace_all(s, "\"", "\\\"")
}

/// With quotes escaped, on one line.
pub fn escape_line(s: &str) -> (r: String)
    ensures
        r@ == one_line(s@),
{
    proof {
        reveal_strlit("\n");
    }
    crate::text::replace_all(escape(s).as_str(), "\n", " ")
}

/// Writes the document with these lines of metadata and this body.
pub fn write_artifact(lines: &Vec<String>, body: &str) -> (r: String)
    ensures
        r@ == artifact(views(lines@), body@),
{
    let ghost texts = views(lines@);
    let mut block = String::new();
    let mut i: usize = 0;
    assert(texts.skip(0) =~= texts);
    assert(block@ + block_of(texts) =~= block_of(texts));
    while i < lines.len()
        invariant
            i <= lines@.len(),
            texts == views(lines@),
            block@ + block_of(texts.skip(i as int)) == block_of(texts),
        decreases lines@.len() - i,
    {
        let ghost before = block@;
        let ghost rest = texts.skip(i as int);
        assert(rest[0] == lines@[i as int]@);
        assert(rest.skip(1) =~= texts.skip(i as int + 1));
        proof {
            reveal_strlit("\n");
        }
        block.append(lines[i].as_str());
        block.append("\n");
        assert("\n"@ =~= seq!['\n']);
        assert(block@ + block_of(rest.skip(1)) =~= before + (rest[0] + seq!['\n'] + block_of(
            rest.skip(1),
        )));
        i += 1;
    }
    assert(block_of(texts.skip(lines@.len() as int)) =~= Seq::empty());
    assert(block@ =~= block_of(texts));
    crate::frontmatter::frame(block.as_str(), body)
}

/// A line that can stand in a metadata block: it is one line, and has no marker in it.
pub open spec fn clean(line: Seq<char>) -> bool {
    &&& !line.contains('\n')
    &&& !occurs(line, "---"@)
    &&& line.len() > 0 ==> line.last() != '\r'
}

proof fn lemma_block(lines: Seq<Seq<char>>)
    requires
        lines.len() > 0,
        forall|i: int| 0 <= i < lines.len() ==> clean(#[trigger] lines[i]),
    ensures
        lines_of(block_of(lines)) == lines,
        !occurs(block_of(lines), "---"@),
        block_of(lines).len() > 0,
        block_of(lines).last() == '\n',
    decreases lines.len(),
{
    reveal_strlit("---");
    let m = "---"@;
    let block = block_of(lines);
    let first = lines[0];
    let n = first.len() as int;
    let rest = lines.skip(1);
    assert(clean(first));
    assert(block[n] == '\n');
    lemma_until(block, '\n');
    assert(until(block, '\n') == n) by {
        let u = until(block, '\n');
        if u < n {
            assert(first[u] == block[u]);
            assert(first.contains('\n'));
        }
    }
    assert(block.take(n) =~= first);
    assert(block.skip(n + 1) =~= block_of(rest));
    assert(without_cr(first) == first);
    if rest.len() == 0 {
        assert(block_of(rest) =~= Seq::empty());
        assert(lines_of(block_of(rest)) =~= Seq::empty());
        assert(lines_of(block) =~= lines);
        assert(block.last() == block[n]);
    } else {
        assert forall|i: int| 0 <= i < rest.len() implies clean(#[trigger] rest[i]) by {
            assert(rest[i] == lines[i + 1]);
        }
        lemma_block(rest);
        assert(lines_of(block) =~= lines);
        assert(block.last() == block_of(rest).last());
    }
    if occurs(block, m) {
        let j = choose|j: int| #[trigger] occurs_at(block, m, j);
        assert(block.subrange(j, j + 3) == m);
        assert(block[j] == m[0] && block[j + 1] == m[1] && block[j + 2] == m[2]) by {
            assert(block.subrange(j, j + 3)[0] == block[j]);
            assert(block.subrange(j, j + 3)[1] == block[j + 1]);
            assert(block.subrange(j, j + 3)[2] == block[j + 2]);
        }
        if j + 2 < n {
            assert(first.subrange(j, j + 3) =~= m);
            assert(occurs_at(first, m, j));
        } else {
            assert(j > n);
            assert(block_of(rest).subrange(j - n - 1, j - n + 2) =~= m);
            assert(occurs_at(block_of(rest), m, j - n - 1));
            if rest.len() == 0 {
                assert(block_of(rest).len() == 0);
            }
        }
    }
}

proof fn lemma_empty_line(key: Seq<char>)
    requires
        key.len() > 0,
    ensures
        line_value(Seq::empty(), key) is None,
{
    assert(trimmed(Seq::<char>::empty()) =~= Seq::empty());
}

proof fn lemma_shifted(lines: Seq<Seq<char>>, n: int, key: Seq<char>)
    requires
        0 <= n <= lines.len(),
        key.len() > 0,
    ensures
        status_in(seq![Seq::empty()] + lines, n + 1) == status_in(lines, n),
        error_in(seq![Seq::empty()] + lines, n + 1) == error_in(lines, n),
        stamp_in(seq![Seq::empty()] + lines, key, n + 1) == stamp_in(lines, key, n),
    decreases n,
{
    reveal_strlit("status:");
    reveal_strlit("error:");
    let all = seq![Seq::<char>::empty()] + lines;
    if n == 0 {
        lemma_empty_line("status:"@);
        lemma_empty_line("error:"@);
        lemma_empty_line(key);
        assert(all[0] == Seq::<char>::empty());
        assert(status_in(all, 0) == "pending"@);
        assert(error_in(all, 0) is None);
        assert(stamp_in(all, key, 0) is None);
    } else {
        lemma_shifted(lines, n - 1, key);
        assert(all[n] == lines[n - 1]);
    }
}

/// What the lines and the body of an artifact tell.
spec fn told(lines: Seq<Seq<char>>, body: Seq<char>) -> StepReportView {
    let n = lines.len() as int;
    let created = stamp_in(lines, "created_at:"@, n);
    let completed = stamp_in(lines, "completed_at:"@, n);
    StepReportView {
        status: status_in(lines, n),
        error: error_in(lines, n),
        duration_ms: if created is Some && completed is Some {
            millis_between(created->0, completed->0)
        } else {
            None
        },
        output: if trimmed(body).len() == 0 {
            None
        } else {
            Some(trimmed(body))
        },
    }
}

proof fn lemma_artifact_lines(lines: Seq<Seq<char>>, body: Seq<char>)
    requires
        lines.len() > 0,
        forall|i: int| 0 <= i < lines.len() ==> clean(#[trigger] lines[i]),
    ensures
        reported(artifact(lines, body)) == told(lines, body),
{
    lemma_block(lines);
    let block = block_of(lines);
    law_split_of_framed(block, body);
    let head = seq!['\n'] + block;
    lemma_until(head, '\n');
    assert(head[0] == '\n');
    assert(until(head, '\n') == 0);
    assert(head.take(0) =~= Seq::empty());
    assert(head.skip(1) =~= block);
    assert(lines_of(head) =~= seq![Seq::empty()] + lines);
    reveal_strlit("created_at:");
    reveal_strlit("completed_at:");
    lemma_shifted(lines, lines.len() as int, "created_at:"@);
    lemma_shifted(lines, lines.len() as int, "completed_at:"@);
    let tail = seq!['\n', '\n'] + body;
    assert(tail.skip(1).skip(1) =~= body);
    assert(tail[0] == '\n' && tail.skip(1)[0] == '\n');
    assert(trimmed_start(tail) == trimmed_start(tail.skip(1)));
    assert(trimmed_start(tail.skip(1)) == trimmed_start(body));
}

proof fn lemma_trimmed_end(s: Seq<char>, k: int)
    requires
        0 <= k < s.len(),
        !is_space(s[k]),
    ensures
        k < trimmed_end(s).len() <= s.len(),
        trimmed_end(s) == s.take(trimmed_end(s).len() as int),
    decreases s.len(),
{
    if is_space(s.last()) {
        assert(s.drop_last()[k] == s[k]);
        lemma_trimmed_end(s.drop_last(), k);
        let t = trimmed_end(s);
        assert(s.drop_last().take(t.len() as int) =~= s.take(t.len() as int));
    } else {
        assert(s.take(s.len() as int) =~= s);
    }
}

proof fn lemma_end_of_tail(s: Seq<char>, n: int, k: int)
    requires
        0 <= k < n <= s.len(),
        !is_space(s[k]),
        n == k + 1,
    ensures
        trimmed_end(s).skip(n) == trimmed_end(s.skip(n)),
    decreases s.len(),
{
    lemma_trimmed_end(s, k);
    if s.len() > n && is_space(s.last()) {
        assert(s.skip(n).last() == s.last());
        assert(s.skip(n).drop_last() =~= s.drop_last().skip(n));
        lemma_end_of_tail(s.drop_last(), n, k);
    } else if s.len() == n {
        assert(!is_space(s.last()));
        assert(trimmed_end(s) == s);
        assert(s.skip(n) =~= Seq::empty());
    } else {
        assert(s.skip(n).last() == s.last());
    }
}

proof fn lemma_entry_value(key: Seq<char>, value: Seq<char>)
    requires
        key.len() > 0,
        !is_space(key[0]),
    ensures
        line_value(entry(key, value), key + ":"@) == Some(trimmed(value)),
{
    reveal_strlit(": ");
    reveal_strlit(":");
    let line = entry(key, value);
    let n = key.len() as int + 1;
    assert(line[0] == key[0]);
    assert(trimmed_start(line) == line);
    assert(line[n - 1] == ':');
    lemma_trimmed_end(line, n - 1);
    let t = trimmed(line);
    assert(t.subrange(0, n) =~= key + ":"@);
    assert(starts(t, key + ":"@));
    lemma_end_of_tail(line, n, n - 1);
    let rest = line.skip(n);
    assert(rest =~= seq![' '] + value);
    assert(rest.skip(1) =~= value);
    lemma_trim_twice(rest);
    assert(trimmed_start(rest) == trimmed_start(value));
}

proof fn lemma_other_entry(own: Seq<char>, value: Seq<char>, key: Seq<char>, i: int)
    requires
        own.len() > 0,
        !is_space(own[0]),
        0 <= i < key.len(),
        i <= own.len(),
        key[i] != (own + ":"@)[i],
    ensures
        line_value(entry(own, value), key) is None,
{
    reveal_strlit(": ");
    reveal_strlit(":");
    let line = entry(own, value);
    let n = own.len() as int + 1;
    assert(line[0] == own[0]);
    assert(trimmed_start(line) == line);
    assert(line[n - 1] == ':');
    lemma_trimmed_end(line, n - 1);
    let t = trimmed(line);
    assert(t[i] == line[i]);
    assert(line[i] == (own + ":"@)[i]);
    if starts(t, key) {
        assert(t.subrange(0, key.len() as int)[i] == t[i]);
    }
    assert(after_prefix(t, key) is None);
}

/// A key as metadata has them.
pub open spec fn plain_key(key: Seq<char>) -> bool {
    key.len() > 0 && !is_space(key[0]) && !key.contains(':')
}

/// An entry gives its value under its own key, and nothing under any other.
proof fn lemma_line_value(own: Seq<char>, value: Seq<char>, key: Seq<char>)
    requires
        plain_key(own),
        plain_key(key),
    ensures
        line_value(entry(own, value), key + ":"@) == if own == key {
            Some(trimmed(value))
        } else {
            None
        },
{
    reveal_strlit(":");
    if own == key {
        lemma_entry_value(own, value);
    } else {
        let a = own + ":"@;
        let b = key + ":"@;
        let shorter = if own.len() <= key.len() {
            own.len() as int
        } else {
            key.len() as int
        };
        if forall|i: int| 0 <= i <= shorter ==> a[i] == b[i] {
            if own.len() < key.len() {
                assert(b[own.len() as int] == ':');
                assert(key[own.len() as int] == ':');
            } else if key.len() < own.len() {
                assert(a[key.len() as int] == ':');
                assert(own[key.len() as int] == ':');
            } else {
                assert forall|i: int| 0 <= i < own.len() implies own[i] == key[i] by {
                    assert(a[i] == b[i]);
                }
                assert(own =~= key);
            }
        } else {
            let i = choose|i: int| 0 <= i <= shorter && a[i] != b[i];
            lemma_other_entry(own, value, b, i);
        }
    }
}

/// The lines that fields make up.
pub open spec fn entries_of(fields: Seq<(Seq<char>, Seq<char>)>) -> Seq<Seq<char>> {
    fields.map_values(|f: (Seq<char>, Seq<char>)| entry(f.0, f.1))
}

/// The value of the last of the first `n` fields with this key.
pub open spec fn field_in(fields: Seq<(Seq<char>, Seq<char>)>, key: Seq<char>, n: int) -> Option<
    Seq<char>,
>
    decreases n,
{
    if n <= 0 {
        None
    } else if fields[n - 1].0 == key {
        Some(fields[n - 1].1)
    } else {
        field_in(fields, key, n - 1)
    }
}

/// At most one of the fields has this key.
pub open spec fn once(fields: Seq<(Seq<char>, Seq<char>)>, key: Seq<char>) -> bool {
    forall|i: int, j: int|
        0 <= i < j < fields.len() && (#[trigger] fields[i]).0 == key ==> (#[trigger] fields[j]).0
            != key
}

proof fn lemma_not_before(fields: Seq<(Seq<char>, Seq<char>)>, key: Seq<char>, at: int, n: int)
    requires
        once(fields, key),
        0 <= n <= at < fields.len(),
        fields[at].0 == key,
    ensures
        field_in(fields, key, n) is None,
    decreases n,
{
    if n > 0 {
        lemma_not_before(fields, key, at, n - 1);
    }
}

proof fn lemma_fields(fields: Seq<(Seq<char>, Seq<char>)>, n: int)
    requires
        0 <= n <= fields.len(),
        forall|i: int| 0 <= i < fields.len() ==> plain_key((#[trigger] fields[i]).0),
        once(fields, "error"@),
        once(fields, "created_at"@),
        once(fields, "completed_at"@),
    ensures
        status_in(entries_of(fields), n) == match field_in(fields, "status"@, n) {
            Some(v) => trimmed(v),
            None => "pending"@,
        },
        error_in(entries_of(fields), n) == match field_in(fields, "error"@, n) {
            Some(v) => if trimmed(v) == "null"@ {
                None
            } else {
                Some(stripped(trimmed(v), "\""@))
            },
            None => None,
        },
        stamp_in(entries_of(fields), "created_at:"@, n) == shown_stamp(
            field_in(fields, "created_at"@, n),
        ),
        stamp_in(entries_of(fields), "completed_at:"@, n) == shown_stamp(
            field_in(fields, "completed_at"@, n),
        ),
    decreases n,
{
    reveal_strlit("status");
    reveal_strlit("error");
    reveal_strlit("created_at");
    reveal_strlit("completed_at");
    reveal_strlit("status:");
    reveal_strlit("error:");
    reveal_strlit("created_at:");
    reveal_strlit("completed_at:");
    reveal_strlit(":");
    if n > 0 {
        lemma_fields(fields, n - 1);
        let f = fields[n - 1];
        assert(entries_of(fields)[n - 1] == entry(f.0, f.1));
        assert("status:"@ =~= "status"@ + ":"@);
        assert("error:"@ =~= "error"@ + ":"@);
        assert("created_at:"@ =~= "created_at"@ + ":"@);
        assert("completed_at:"@ =~= "completed_at"@ + ":"@);
        lemma_line_value(f.0, f.1, "status"@);
        lemma_line_value(f.0, f.1, "error"@);
        lemma_line_value(f.0, f.1, "created_at"@);
        lemma_line_value(f.0, f.1, "completed_at"@);
        if f.0 == "error"@ {
            lemma_not_before(fields, "error"@, n - 1, n - 1);
        }
        if f.0 == "created_at"@ {
            lemma_not_before(fields, "created_at"@, n - 1, n - 1);
        }
        if f.0 == "completed_at"@ {
            lemma_not_before(fields, "completed_at"@, n - 1, n - 1);
        }
    }
}

/// A stamp as it is read: without quotes, and none where it is empty or `null`.
pub open spec fn shown_stamp(value: Option<Seq<char>>) -> Option<Seq<char>> {
    match value {
        Some(v) if stripped(trimmed(v), "\""@).len() > 0 && stripped(trimmed(v), "\""@)
            != "null"@ => Some(stripped(trimmed(v), "\""@)),
        _ => None,
    }
}

/// What the fields and the body of an artifact tell.
pub open spec fn fields_told(fields: Seq<(Seq<char>, Seq<char>)>, body: Seq<char>) -> StepReportView {
    let n = fields.len() as int;
    let created = shown_stamp(field_in(fields, "created_at"@, n));
    let completed = shown_stamp(field_in(fields, "completed_at"@, n));
    StepReportView {
        status: match field_in(fields, "status"@, n) {
            Some(v) => trimmed(v),
            None => "pending"@,
        },
        error: match field_in(fields, "error"@, n) {
            Some(v) => if trimmed(v) == "null"@ {
                None
            } else {
                Some(stripped(trimmed(v), "\""@))
            },
            None => None,
        },
        duration_ms: if created is Some && completed is Some {
            millis_between(created->0, completed->0)
        } else {
            None
        },
        output: if trimmed(body).len() == 0 {
            None
        } else {
            Some(trimmed(body))
        },
    }
}

/// Every field stands on one line, without a marker.
pub open spec fn one_line_each(fields: Seq<(Seq<char>, Seq<char>)>) -> bool {
    forall|i: int| 0 <= i < fields.len() ==> clean(entry((#[trigger] fields[i]).0, fields[i].1))
}

/// Fields that can be told apart and stand on a line each.
pub open spec fn well_formed(fields: Seq<(Seq<char>, Seq<char>)>) -> bool {
    &&& fields.len() > 0
    &&& forall|i: int| 0 <= i < fields.len() ==> plain_key((#[trigger] fields[i]).0)
    &&& one_line_each(fields)
    &&& once(fields, "error"@)
    &&& once(fields, "created_at"@)
    &&& once(fields, "completed_at"@)
}

/// Reading an artifact gives back the status, the error, the stamps and the body that it
/// was written with. Each field stands on a line of its own and has no `---` in it.
pub proof fn law_artifact_reads_back(fields: Seq<(Seq<char>, Seq<char>)>, body: Seq<char>)
    requires
        well_formed(fields),
    ensures
        reported(artifact(entries_of(fields), body)) == fields_told(fields, body),
{
    let lines = entries_of(fields);
    assert forall|i: int| 0 <= i < lines.len() implies clean(#[trigger] lines[i]) by {
        assert(lines[i] == entry(fields[i].0, fields[i].1));
    }
    lemma_artifact_lines(lines, body);
    lemma_fields(fields, fields.len() as int);
}

/// What follows the metadata of an artifact is what it was written with, but for white
/// space around it. Each field stands on a line of its own and has no `---` in it.
pub proof fn law_artifact_body(fields: Seq<(Seq<char>, Seq<char>)>, text: Seq<char>)
    requires
        fields.len() > 0,
        one_line_each(fields),
    ensures
        trimmed(crate::frontmatter::body(artifact(entries_of(fields), text))) == trimmed(text),
{
    let lines = entries_of(fields);
    assert forall|i: int| 0 <= i < lines.len() implies clean(#[trigger] lines[i]) by {
        assert(lines[i] == entry(fields[i].0, fields[i].1));
    }
    lemma_block(lines);
    law_split_of_framed(block_of(lines), text);
    crate::text::law_space_in_front(seq!['\n', '\n'], text);
}

/// The keys that artifacts use can be told apart.
pub proof fn lemma_keys()
    ensures
        plain_key("name"@),
        plain_key("description"@),
        plain_key("connector"@),
        plain_key("input"@),
        plain_key("status"@),
        plain_key("created_at"@),
        plain_key("completed_at"@),
        plain_key("error"@),
        plain_key("cli"@),
        plain_key("integration_id"@),
        plain_key("pages_created"@),
        "name"@ != "status"@,
        "description"@ != "status"@,
        "connector"@ != "status"@,
        "input"@ != "status"@,
        "created_at"@ != "status"@,
        "completed_at"@ != "status"@,
        "error"@ != "status"@,
        "cli"@ != "status"@,
        "integration_id"@ != "status"@,
        "pages_created"@ != "status"@,
        "name"@ != "error"@,
        "description"@ != "error"@,
        "connector"@ != "error"@,
        "input"@ != "error"@,
        "status"@ != "error"@,
        "created_at"@ != "error"@,
        "completed_at"@ != "error"@,
        "cli"@ != "error"@,
        "integration_id"@ != "error"@,
        "pages_created"@ != "error"@,
        "name"@ != "created_at"@,
        "description"@ != "created_at"@,
        "connector"@ != "created_at"@,
        "input"@ != "created_at"@,
        "status"@ != "created_at"@,
        "completed_at"@ != "created_at"@,
        "error"@ != "created_at"@,
        "cli"@ != "created_at"@,
        "integration_id"@ != "created_at"@,
        "pages_created"@ != "created_at"@,
        "name"@ != "completed_at"@,
        "description"@ != "completed_at"@,
        "connector"@ != "completed_at"@,
        "input"@ != "completed_at"@,
        "status"@ != "completed_at"@,
        "created_at"@ != "completed_at"@,
        "error"@ != "completed_at"@,
        "cli"@ != "completed_at"@,
        "integration_id"@ != "completed_at"@,
        "pages_created"@ != "completed_at"@,
{
    reveal_strlit("name");
    reveal_strlit("description");
    reveal_strlit("connector");
    reveal_strlit("input");
    reveal_strlit("status");
    reveal_strlit("created_at");
    reveal_strlit("completed_at");
    reveal_strlit("error");
    reveal_strlit("cli");
    reveal_strlit("integration_id");
    reveal_strlit("pages_created");
    assert("name"@[0] == 'n');
    assert("description"@[0] == 'd');
    assert("connector"@[0] == 'c');
    assert("connector"@[1] == 'o');
    assert("input"@[0] == 'i');
    assert("status"@[0] == 's');
    assert("created_at"@[0] == 'c');
    assert("created_at"@[1] == 'r');
    assert("completed_at"@[0] == 'c');
    assert("completed_at"@[1] == 'o');
    assert("error"@[0] == 'e');
    assert("cli"@[0] == 'c');
    assert("cli"@[1] == 'l');
    assert("integration_id"@[0] == 'i');
    assert("pages_created"@[0] == 'p');
    assert("connector"@[2] == 'n');
    assert("completed_at"@[2] == 'm');
    assert("input"@[2] == 'p');
    assert("integration_id"@[2] == 't');
}

/// A value in quotes has no white space around it.
pub proof fn lemma_quoted(value: Seq<char>)
    ensures
        trimmed(quoted(value)) == quoted(value),
        quoted(value) != "null"@,
{
    reveal_strlit("\"");
    reveal_strlit("null");
    let q = quoted(value);
    assert(q[0] == '"' && q.last() == '"');
    assert("null"@[0] == 'n');
}

proof fn lemma_trimmed_end_idem(s: Seq<char>)
    ensures
        trimmed_end(trimmed_end(s)) == trimmed_end(s),
    decreases s.len(),
{
    if s.len() > 0 && is_space(s.last()) {
        lemma_trimmed_end_idem(s.drop_last());
    }
}

/// Trimming the end first makes no difference.
proof fn lemma_trim_twice(s: Seq<char>)
    ensures
        trimmed(trimmed_end(s)) == trimmed(s),
    decreases s.len(),
{
    if s.len() > 0 && is_space(s[0]) {
        lemma_trim_twice(s.skip(1));
        if s.len() > 0 && is_space(s.last()) {
            if s.len() == 1 {
                assert(s.drop_last() =~= Seq::empty());
                assert(s.skip(1) =~= Seq::empty());
            } else {
                lemma_start_of_trimmed(s);
            }
        }
    } else {
        lemma_trimmed_end_idem(s);
        lemma_first_kept(s);
    }
}

proof fn lemma_trimmed_start_first(s: Seq<char>)
    ensures
        trimmed_start(s).len() > 0 ==> !is_space(trimmed_start(s)[0]),
    decreases s.len(),
{
    if s.len() > 0 && is_space(s[0]) {
        lemma_trimmed_start_first(s.skip(1));
    }
}

/// A text on a line of its own reads back without the end of the line.
pub proof fn lemma_trimmed_line(s: Seq<char>)
    ensures
        trimmed(trimmed(s) + "\n"@) == trimmed(s),
{
    reveal_strlit("\n");
    let start = trimmed_start(s);
    let t = trimmed(s);
    let line = t + "\n"@;
    lemma_trimmed_start_first(s);
    lemma_trimmed_end_idem(start);
    lemma_first_kept(start);
    assert(line.last() == '\n');
    assert(line.drop_last() =~= t);
    if t.len() == 0 {
        assert(line[0] == '\n');
        assert(line.skip(1) =~= Seq::empty());
        assert(trimmed_start(Seq::<char>::empty()) =~= Seq::empty());
        assert(t =~= Seq::empty());
    } else {
        lemma_trimmed_end(start, 0);
        assert(t[0] == start[0]);
        assert(line[0] == t[0]);
        assert(trimmed_start(line) == line);
    }
}

proof fn lemma_first_kept(s: Seq<char>)
    requires
        s.len() > 0 ==> !is_space(s[0]),
    ensures
        trimmed_start(trimmed_end(s)) == trimmed_end(s),
{
    if s.len() > 0 {
        lemma_trimmed_end(s, 0);
        assert(trimmed_end(s)[0] == s[0]);
    }
}

/// A space at the start falls away, whether the end is trimmed before or after.
proof fn lemma_start_of_trimmed(s: Seq<char>)
    requires
        s.len() > 0,
        is_space(s[0]),
    ensures
        trimmed_start(trimmed_end(s)) == trimmed_start(trimmed_end(s.skip(1))),
    decreases s.len(),
{
    if s.len() == 1 {
        assert(s.drop_last() =~= Seq::empty());
        assert(s.skip(1) =~= Seq::empty());
    } else if is_space(s.last()) {
        assert(s.skip(1).last() == s.last());
        assert(s.skip(1).drop_last() =~= s.drop_last().skip(1));
        assert(s.drop_last()[0] == s[0]);
        lemma_start_of_trimmed(s.drop_last());
    } else {
        assert(s.skip(1).last() == s.last());
        assert(trimmed_end(s) == s);
        assert(trimmed_end(s.skip(1)) == s.skip(1));
    }
}

/// A quote that is escaped has a backslash in front; nothing else changes.
pub proof fn law_escaped(front: Seq<char>, rest: Seq<char>)
    requires
        !front.contains('"'),
    ensures
        escaped(front) == front,
        escaped(front + seq!['"'] + rest) == front + seq!['\\', '"'] + escaped(rest),
{
    reveal_strlit("\"");
    reveal_strlit("\\\"");
    let q = "\""@;
    assert(q =~= seq!['"']);
    assert("\\\""@ =~= seq!['\\', '"']);
    assert(q[0] == '"');
    let all = q + rest;
    crate::text::law_replaced_behind(front, all, q, "\\\""@);
    crate::text::law_replaced_behind(front, Seq::empty(), q, "\\\""@);
    assert(front + Seq::<char>::empty() =~= front);
    assert(front + q + rest =~= front + all);
    crate::text::law_replaced(Seq::empty(), q, "\\\""@, rest);
    assert(Seq::<char>::empty() + q + rest =~= all);
    assert(Seq::<char>::empty() + "\\\""@ + escaped(rest) =~= "\\\""@ + escaped(rest));
    assert(front + ("\\\""@ + escaped(rest)) =~= front + seq!['\\', '"'] + escaped(rest));
    assert(replaced(Seq::empty(), q, "\\\""@) =~= Seq::empty());
}

proof fn lemma_field_in(fields: Seq<(Seq<char>, Seq<char>)>, key: Seq<char>, i: int, n: int)
    requires
        0 <= n <= fields.len(),
        i < n,
        i >= 0 ==> fields[i].0 == key,
        forall|j: int| 0 <= j < n && i < j ==> (#[trigger] fields[j]).0 != key,
    ensures
        i >= 0 ==> field_in(fields, key, n) == Some(fields[i].1),
        i < 0 ==> field_in(fields, key, n) is None,
    decreases n,
{
    if n > 0 && i < n - 1 {
        assert(fields[n - 1].0 != key);
        lemma_field_in(fields, key, i, n - 1);
    }
}

/// An artifact tells the last status that stands in it, the error without the quotes around
/// it, and what follows the metadata; an error of `null`, or none, is no error.
pub proof fn law_artifact_tells(
    fields: Seq<(Seq<char>, Seq<char>)>,
    text: Seq<char>,
    i: int,
    e: int,
    status: Seq<char>,
    error: Seq<char>,
)
    requires
        well_formed(fields),
        0 <= i < fields.len(),
        fields[i] == ("status"@, status),
        forall|j: int| i < j < fields.len() ==> (#[trigger] fields[j]).0 != "status"@,
        crate::text::tight(status),
        e < fields.len(),
        e >= 0 ==> fields[e].0 == "error"@,
        e < 0 ==> forall|j: int| 0 <= j < fields.len() ==> (#[trigger] fields[j]).0 != "error"@,
    ensures
        ({
            let told = reported(artifact(entries_of(fields), text));
            &&& told.status == status
            &&& e < 0 ==> told.error is None
            &&& e >= 0 && fields[e].1 == "null"@ ==> told.error is None
            &&& e >= 0 && fields[e].1 == seq!['"'] + error + seq!['"'] && error.len() > 0
                && error[0] != '"' && error.last() != '"' ==> told.error == Some(error)
            &&& crate::text::all_space(text) ==> told.output is None
            &&& !crate::text::all_space(text) ==> told.output == Some(trimmed(text))
        }),
{
    let n = fields.len() as int;
    let none = Seq::<char>::empty();
    law_artifact_reads_back(fields, text);
    lemma_field_in(fields, "status"@, i, n);
    crate::text::law_trimmed_around(none, status, none);
    assert(none + status + none =~= status);
    crate::text::law_blank(text);
    if e >= 0 {
        assert forall|j: int| e < j < n implies (#[trigger] fields[j]).0 != "error"@ by {
            assert(fields[e].0 == "error"@);
        }
    }
    lemma_field_in(
        fields,
        "error"@,
        if e < 0 {
            -1
        } else {
            e
        },
        n,
    );
    reveal_strlit("null");
    reveal_strlit("\"");
    let null = "null"@;
    assert(null.len() == 4 && null[0] == 'n' && null[3] == 'l');
    crate::text::law_trimmed_around(none, null, none);
    assert(none + null + none =~= null);
    let v = seq!['"'] + error + seq!['"'];
    if e >= 0 && fields[e].1 == v && error.len() > 0 && error[0] != '"' && error.last() != '"' {
        assert(v[0] == '"' && v.last() == '"');
        crate::text::law_trimmed_around(none, v, none);
        assert(none + v + none =~= v);
        assert("\""@ =~= seq!['"']);
        assert("\""@[0] == '"');
        crate::text::law_stripped_around(seq!['"'], error, seq!['"'], "\""@);
    }
}

} // verus!
