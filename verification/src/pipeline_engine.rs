//! Running pipelines: templates, the chain of steps, its artifacts and states.

use crate::artifacts::{
    artifact, entries_of, escape, escaped, field_in, law_artifact_reads_back, lemma_keys,
    lemma_quoted, one_line_each, quoted, write_artifact, write_entry, write_quoted,
};
use crate::config::StepType;
use crate::frontmatter::{body, split, split_frontmatter, strip_frontmatter};
use crate::ids::{new_id, uuid_shape};
use crate::json::{
    entry_of, json_in, json_result, parse, parse_known, set_entry, set_member, take_entry, with_member,
    Json,
};
use crate::paths::{path_join, under};
use crate::pipelines::{
    name_view, not_found, pipeline_fault, str_view, validate_pipeline, Pipeline, PipelineState,
    PipelineStatus, PipelineStep,
};
use crate::seqs::{count_of, first_index, last_index, lemma_last_index};
use crate::storage::Attendee;
use crate::text::{
    after_prefix, all_in, all_space, begins, blank, chars_of, decimal, decimal_of, find_char,
    is_space, join, joined, joined3, joined_by, law_blank, law_stripped_around, law_stripped_start,
    law_trimmed_around, lines, lines_of, lowercase, lowered, occurs, occurs_at, replace_all, replaced, same,
    starts, strip, strip_prefix, strip_start, stripped, stripped_start, take, taken, text_of, tight,
    trim, trimmed, until, views,
};
use crate::time::{elapsed_millis, is_stamp, millis_between, now_stamp};
use vstd::prelude::*;

verus! {

/// A line without heading and emphasis marks.
pub open spec fn unmarked(line: Seq<char>) -> Seq<char> {
    trimmed(stripped(trimmed(stripped_start(trimmed(line), "#"@)), "*"@))
}

/// What stands before the first colon; all of it where there is none.
pub open spec fn before_colon(line: Seq<char>) -> Seq<char> {
    line.take(until(line, ':'))
}

/// Labels under which the topic is given, in lower case.
pub open spec fn topic_label(lower: Seq<char>) -> bool {
    lower == "topic"@ || lower == "тема"@ || lower == "tema"@
}

/// A line that gives the topic, or announces it: "## Topic", "**Topic**",
/// "**Topic**: value", "**Topic:** value".
pub open spec fn is_topic_line(line: Seq<char>) -> bool {
    topic_label(lowered(unmarked(before_colon(trimmed(line)))))
}

/// The topic on the line itself, after the colon.
pub open spec fn inline_topic(line: Seq<char>) -> Option<Seq<char>> {
    let t = trimmed(line);
    if until(t, ':') < t.len() {
        let value = trimmed(stripped(trimmed(t.skip(until(t, ':') + 1)), "*"@));
        if value.len() > 0 {
            Some(taken(value, 100))
        } else {
            None
        }
    } else {
        None
    }
}

/// The topic that a line below the label gives.
pub open spec fn topic_below(line: Seq<char>) -> Option<Seq<char>> {
    let t = trimmed(line);
    if t.len() == 0 || t == "---"@ {
        None
    } else {
        let title = trimmed(stripped(stripped_start(t, "-* "@), "*"@));
        if title.len() > 0 {
            Some(taken(title, 100))
        } else {
            None
        }
    }
}

/// The first topic that the lines from `i` on give.
pub open spec fn next_topic(lines: Seq<Seq<char>>, i: int) -> Option<Seq<char>>
    decreases lines.len() - i,
{
    if i >= lines.len() {
        None
    } else if topic_below(lines[i]) is Some {
        topic_below(lines[i])
    } else {
        next_topic(lines, i + 1)
    }
}

/// The topic that a label line `i` leads to.
pub open spec fn topic_at(lines: Seq<Seq<char>>, i: int) -> Option<Seq<char>> {
    if !is_topic_line(lines[i]) {
        None
    } else if inline_topic(lines[i]) is Some {
        inline_topic(lines[i])
    } else {
        next_topic(lines, i + 1)
    }
}

/// The first topic that a label from line `i` on leads to.
pub open spec fn labelled_topic(lines: Seq<Seq<char>>, i: int) -> Option<Seq<char>>
    decreases lines.len() - i,
{
    if i >= lines.len() {
        None
    } else if topic_at(lines, i) is Some {
        topic_at(lines, i)
    } else {
        labelled_topic(lines, i + 1)
    }
}

/// Headings, in lower case, that say nothing of the content.
pub open spec fn generic_heading(lower: Seq<char>) -> bool {
    ||| lower == "summary"@
    ||| lower == "резюме"@
    ||| lower == "краткое резюме"@
    ||| lower == "краткое содержание"@
    ||| lower == "краткое саммари разговора"@
    ||| lower == "краткое резюме разговора"@
    ||| lower == "краткое содержание разговора"@
    ||| lower == "краткое содержание транскрипта"@
    ||| lower == "резюме созвона"@
    ||| lower == "резюме разговора"@
}

/// The title that a heading line gives.
pub open spec fn heading_title(line: Seq<char>) -> Option<Seq<char>> {
    let t = trimmed(line);
    if starts(t, "#"@) {
        let heading = trimmed(stripped_start(t, "#"@));
        if heading.len() > 0 && !generic_heading(lowered(heading)) {
            Some(taken(heading, 100))
        } else {
            None
        }
    } else {
        None
    }
}

/// The first title that a heading from line `i` on gives.
pub open spec fn first_heading(lines: Seq<Seq<char>>, i: int) -> Option<Seq<char>>
    decreases lines.len() - i,
{
    if i >= lines.len() {
        None
    } else if heading_title(lines[i]) is Some {
        heading_title(lines[i])
    } else {
        first_heading(lines, i + 1)
    }
}

/// The title in the output of a step: its topic, else its first telling heading.
pub open spec fn title_in(content: Seq<char>) -> Option<Seq<char>> {
    let all = lines_of(body(content));
    if labelled_topic(all, 0) is Some {
        labelled_topic(all, 0)
    } else {
        first_heading(all, 0)
    }
}

/// Whether a label, in lower case, announces the topic.
pub fn is_topic_label(lower: &str) -> (r: bool)
    ensures
        r == topic_label(lower@),
{
    same(lower, "topic") || same(lower, "тема") || same(lower, "tema")
}

/// Whether a heading, in lower case, says nothing of the content.
pub fn is_generic_heading(lower: &str) -> (r: bool)
    ensures
        r == generic_heading(lower@),
{
    same(lower, "summary") || same(lower, "резюме") || same(lower, "краткое резюме") || same(
        lower,
        "краткое содержание",
    ) || same(lower, "краткое саммари разговора") || same(lower, "краткое резюме разговора")
        || same(lower, "краткое содержание разговора") || same(
        lower,
        "краткое содержание транскрипта",
    ) || same(lower, "резюме созвона") || same(lower, "резюме разговора")
}

/// The label on a line: what stands before its first colon, without marks.
pub fn line_label(line: &str) -> (r: String)
    ensures
        r@ == unmarked(before_colon(trimmed(line@))),
{
    let v = chars_of(trim(line).as_str());
    assert(v@.skip(0) =~= v@);
    let colon: usize = find_char(&v, ':', 0);
    let head = text_of(&v, 0, colon);
    assert(head@ =~= before_colon(trimmed(line@)));
    let plain = strip_start(trim(head.as_str()).as_str(), "#");
    let bare = strip(trim(plain.as_str()).as_str(), "*");
    trim(bare.as_str())
}

fn find_inline_topic(line: &str) -> (r: Option<String>)
    ensures
        match r {
            Some(t) => inline_topic(line@) == Some(t@),
            None => inline_topic(line@) is None,
        },
{
    let v = chars_of(trim(line).as_str());
    assert(v@.skip(0) =~= v@);
    let n: usize = v.len();
    let colon: usize = find_char(&v, ':', 0);
    if colon < n {
        let rest = text_of(&v, colon + 1, n);
        assert(rest@ =~= v@.skip(colon as int + 1));
        let value = trim(strip(trim(rest.as_str()).as_str(), "*").as_str());
        if value.as_str().is_empty() {
            None
        } else {
            Some(take(value.as_str(), 100))
        }
    } else {
        None
    }
}

fn find_topic_below(line: &str) -> (r: Option<String>)
    ensures
        match r {
            Some(t) => topic_below(line@) == Some(t@),
            None => topic_below(line@) is None,
        },
{
    let t = trim(line);
    if t.as_str().is_empty() || same(t.as_str(), "---") {
        return None;
    }
    let title = trim(strip(strip_start(t.as_str(), "-* ").as_str(), "*").as_str());
    if title.as_str().is_empty() {
        None
    } else {
        Some(take(title.as_str(), 100))
    }
}

fn find_next_topic(all: &Vec<String>, from: usize) -> (r: Option<String>)
    ensures
        match r {
            Some(t) => next_topic(views(all@), from as int) == Some(t@),
            None => next_topic(views(all@), from as int) is None,
        },
{
    let ghost texts = views(all@);
    let mut i: usize = from;
    while i < all.len()
        invariant
            texts == views(all@),
            next_topic(texts, from as int) == next_topic(texts, i as int),
        decreases all@.len() - i,
    {
        assert(texts[i as int] == all@[i as int]@);
        match find_topic_below(all[i].as_str()) {
            Some(t) => {
                return Some(t);
            },
            None => {},
        }
        i += 1;
    }
    None
}

fn find_topic_at(all: &Vec<String>, i: usize) -> (r: Option<String>)
    requires
        i < all@.len(),
    ensures
        match r {
            Some(t) => topic_at(views(all@), i as int) == Some(t@),
            None => topic_at(views(all@), i as int) is None,
        },
{
    assert(views(all@)[i as int] == all@[i as int]@);
    let n: usize = all.len();
    let label = lowercase(line_label(all[i].as_str()).as_str());
    if !is_topic_label(label.as_str()) {
        return None;
    }
    match find_inline_topic(all[i].as_str()) {
        Some(t) => Some(t),
        None => {
            assert(i + 1 <= n);
            find_next_topic(all, i + 1)
        },
    }
}

fn find_heading(line: &str) -> (r: Option<String>)
    ensures
        match r {
            Some(t) => heading_title(line@) == Some(t@),
            None => heading_title(line@) is None,
        },
{
    let t = trim(line);
    if !begins(t.as_str(), "#") {
        return None;
    }
    let heading = trim(strip_start(t.as_str(), "#").as_str());
    if heading.as_str().is_empty() {
        return None;
    }
    if is_generic_heading(lowercase(heading.as_str()).as_str()) {
        None
    } else {
        Some(take(heading.as_str(), 100))
    }
}

/// A short title out of the output of a step: the topic that it labels, else
/// its first heading that says something, at most 100 characters.
pub fn extract_title_from_output(content: &str) -> (r: Option<String>)
    ensures
        match r {
            Some(t) => title_in(content@) == Some(t@),
            None => title_in(content@) is None,
        },
{
    let all = lines(strip_frontmatter(content).as_str());
    let ghost texts = views(all@);
    let n: usize = all.len();
    let mut i: usize = 0;
    while i < n
        invariant
            i <= n,
            n == all@.len(),
            texts == views(all@),
            texts == lines_of(body(content@)),
            labelled_topic(texts, 0) == labelled_topic(texts, i as int),
        decreases n - i,
    {
        match find_topic_at(&all, i) {
            Some(t) => {
                return Some(t);
            },
            None => {},
        }
        i += 1;
    }
    i = 0;
    while i < n
        invariant
            i <= n,
            n == all@.len(),
            texts == views(all@),
            texts == lines_of(body(content@)),
            labelled_topic(texts, 0) is None,
            first_heading(texts, 0) == first_heading(texts, i as int),
        decreases n - i,
    {
        assert(texts[i as int] == all@[i as int]@);
        match find_heading(all[i].as_str()) {
            Some(t) => {
                return Some(t);
            },
            None => {},
        }
        i += 1;
    }
    None
}

/// A title is never longer than 100 characters.
pub proof fn law_title_is_short(content: Seq<char>)
    requires
        title_in(content) is Some,
    ensures
        title_in(content)->0.len() <= 100,
{
    let all = lines_of(body(content));
    lemma_topic_short(all, 0);
    lemma_heading_short(all, 0);
}

proof fn lemma_next_topic_short(lines: Seq<Seq<char>>, i: int)
    ensures
        next_topic(lines, i) is Some ==> next_topic(lines, i)->0.len() <= 100,
    decreases lines.len() - i,
{
    if i < lines.len() && topic_below(lines[i]) is None {
        lemma_next_topic_short(lines, i + 1);
    }
}

proof fn lemma_topic_short(lines: Seq<Seq<char>>, i: int)
    ensures
        labelled_topic(lines, i) is Some ==> labelled_topic(lines, i)->0.len() <= 100,
    decreases lines.len() - i,
{
    if i < lines.len() {
        lemma_next_topic_short(lines, i + 1);
        if topic_at(lines, i) is None {
            lemma_topic_short(lines, i + 1);
        }
    }
}

proof fn lemma_heading_short(lines: Seq<Seq<char>>, i: int)
    ensures
        first_heading(lines, i) is Some ==> first_heading(lines, i)->0.len() <= 100,
    decreases lines.len() - i,
{
    if i < lines.len() && heading_title(lines[i]) is None {
        lemma_heading_short(lines, i + 1);
    }
}

proof fn lemma_marks()
    ensures
        "#"@ == seq!['#'],
        "*"@ == seq!['*'],
        "-* "@ == seq!['-', '*', ' '],
{
    reveal_strlit("#");
    reveal_strlit("*");
    reveal_strlit("-* ");
    assert("#"@ =~= seq!['#']);
    assert("*"@ =~= seq!['*']);
    assert("-* "@ =~= seq!['-', '*', ' ']);
}

/// A word that stands between marks: not blank, and no mark of its own at its ends.
pub open spec fn plain_words(w: Seq<char>) -> bool {
    &&& w.len() > 0
    &&& tight(w)
    &&& w[0] != '#' && w[0] != '*' && w[0] != '-'
    &&& w.last() != '*'
}

/// A word in heading or emphasis marks labels the topic exactly if, in lower case, it is
/// one of the three words for it; without a colon the line gives no topic itself.
pub proof fn law_label_in_marks(
    hashes: Seq<char>,
    gap: Seq<char>,
    open: Seq<char>,
    w: Seq<char>,
    close: Seq<char>,
)
    requires
        all_in(hashes, seq!['#']),
        all_space(gap),
        hashes.len() == 0 ==> gap.len() == 0,
        all_in(open, seq!['*']),
        all_in(close, seq!['*']),
        plain_words(w),
        !w.contains(':'),
    ensures
        is_topic_line(hashes + gap + open + w + close) == (lowered(w) == "topic"@ || lowered(w)
            == "тема"@ || lowered(w) == "tema"@),
        inline_topic(hashes + gap + open + w + close) is None,
{
    lemma_marks();
    let line = hashes + gap + open + w + close;
    let none = Seq::<char>::empty();
    lemma_no_colon(hashes, gap, open, w, close);
    assert(tight(line)) by {
        if hashes.len() > 0 {
            assert(line[0] == hashes[0]);
            assert(seq!['#'].contains(hashes[0]));
        } else if open.len() > 0 {
            assert(line[0] == open[0]);
            assert(seq!['*'].contains(open[0]));
        } else {
            assert(line[0] == w[0]);
        }
        if close.len() > 0 {
            assert(line.last() == close.last());
            assert(seq!['*'].contains(close[close.len() - 1]));
        } else {
            assert(line.last() == w.last());
        }
    }
    law_trimmed_around(none, line, none);
    assert(none + line + none =~= line);
    assert(line.take(line.len() as int) =~= line);
    let marked = open + w + close;
    let rest = gap + marked;
    assert(line =~= hashes + rest);
    assert(marked[0] != '#' && !is_space(marked[0])) by {
        if open.len() > 0 {
            assert(marked[0] == open[0]);
            assert(seq!['*'].contains(open[0]));
        } else {
            assert(marked[0] == w[0]);
        }
    }
    assert(rest[0] != '#') by {
        if gap.len() > 0 {
            assert(is_space(gap[0]));
            assert(rest[0] == gap[0]);
        } else {
            assert(rest[0] == marked[0]);
        }
    }
    law_stripped_start(hashes, rest, "#"@);
    assert(!is_space(marked.last())) by {
        if close.len() > 0 {
            assert(marked.last() == close.last());
            assert(seq!['*'].contains(close[close.len() - 1]));
        } else {
            assert(marked.last() == w.last());
        }
    }
    law_trimmed_around(gap, marked, none);
    assert(gap + marked + none =~= rest);
    law_stripped_around(open, w, close, "*"@);
    law_trimmed_around(none, w, none);
    assert(none + w + none =~= w);
}

proof fn lemma_no_colon(
    hashes: Seq<char>,
    gap: Seq<char>,
    open: Seq<char>,
    w: Seq<char>,
    close: Seq<char>,
)
    requires
        all_in(hashes, seq!['#']),
        all_space(gap),
        all_in(open, seq!['*']),
        all_in(close, seq!['*']),
        !w.contains(':'),
    ensures
        until(hashes + gap + open + w + close, ':') == (hashes + gap + open + w + close).len(),
{
    let line = hashes + gap + open + w + close;
    crate::text::lemma_until(line, ':');
    assert forall|i: int| 0 <= i < line.len() implies line[i] != ':' by {
        let a = hashes.len() as int;
        let b = a + gap.len();
        let c = b + open.len();
        let d = c + w.len();
        if i < a {
            assert(seq!['#'].contains(hashes[i]));
        } else if i < b {
            assert(is_space(gap[i - a]));
        } else if i < c {
            assert(seq!['*'].contains(open[i - b]));
        } else if i < d {
            assert(w.contains(w[i - c]));
        } else {
            assert(seq!['*'].contains(close[i - d]));
        }
    }
}

/// Words on a line below the label are the topic: without bullets, without emphasis marks,
/// at most 100 characters of them.
pub proof fn law_topic_below_label(bullets: Seq<char>, y: Seq<char>, close: Seq<char>)
    requires
        all_in(bullets, seq!['-', '*', ' ']),
        bullets.len() > 0 ==> bullets[0] != ' ',
        all_in(close, seq!['*']),
        plain_words(y),
    ensures
        topic_below(bullets + y + close) == Some(
            if y.len() > 100 {
                y.take(100)
            } else {
                y
            },
        ),
{
    lemma_marks();
    reveal_strlit("---");
    let line = bullets + y + close;
    let none = Seq::<char>::empty();
    assert(tight(line)) by {
        if bullets.len() > 0 {
            assert(line[0] == bullets[0]);
            assert(seq!['-', '*', ' '].contains(bullets[0]));
        } else {
            assert(line[0] == y[0]);
        }
        if close.len() > 0 {
            assert(line.last() == close.last());
            assert(seq!['*'].contains(close[close.len() - 1]));
        } else {
            assert(line.last() == y.last());
        }
    }
    law_trimmed_around(none, line, none);
    assert(none + line + none =~= line);
    let b = bullets.len() as int;
    assert(line[b] == y[0]);
    assert(line != "---"@);
    assert(line =~= bullets + (y + close));
    assert((y + close)[0] == y[0]);
    assert(!seq!['-', '*', ' '].contains(y[0]));
    law_stripped_start(bullets, y + close, "-* "@);
    law_stripped_around(none, y, close, "*"@);
    assert(none + y + close =~= y + close);
    law_trimmed_around(none, y, none);
    assert(none + y + none =~= y);
}

proof fn lemma_next_topic(lines: Seq<Seq<char>>, from: int, k: int)
    requires
        0 <= from <= k < lines.len(),
        forall|j: int| from <= j < k ==> topic_below(#[trigger] lines[j]) is None,
        topic_below(lines[k]) is Some,
    ensures
        next_topic(lines, from) == topic_below(lines[k]),
    decreases k - from,
{
    if from < k {
        assert(topic_below(lines[from]) is None);
        lemma_next_topic(lines, from + 1, k);
    }
}

proof fn lemma_labelled_topic(lines: Seq<Seq<char>>, from: int, i: int)
    requires
        0 <= from <= i < lines.len(),
        forall|j: int| from <= j < i ==> #[trigger] topic_at(lines, j) is None,
        topic_at(lines, i) is Some,
    ensures
        labelled_topic(lines, from) == topic_at(lines, i),
    decreases i - from,
{
    if from < i {
        assert(topic_at(lines, from) is None);
        lemma_labelled_topic(lines, from + 1, i);
    }
}

proof fn lemma_no_topic(lines: Seq<Seq<char>>, from: int)
    requires
        0 <= from,
        forall|j: int| from <= j < lines.len() ==> #[trigger] topic_at(lines, j) is None,
    ensures
        labelled_topic(lines, from) is None,
    decreases lines.len() - from,
{
    if from < lines.len() {
        assert(topic_at(lines, from) is None);
        lemma_no_topic(lines, from + 1);
    }
}

proof fn lemma_first_heading(lines: Seq<Seq<char>>, from: int, i: int)
    requires
        0 <= from <= i < lines.len(),
        forall|j: int| from <= j < i ==> heading_title(#[trigger] lines[j]) is None,
        heading_title(lines[i]) is Some,
    ensures
        first_heading(lines, from) == heading_title(lines[i]),
    decreases i - from,
{
    if from < i {
        assert(heading_title(lines[from]) is None);
        lemma_first_heading(lines, from + 1, i);
    }
}

/// A label with words below it names the recording, whatever headings stand before or
/// after it: where line `i` is the first label that leads to a topic, and line `k` the
/// first one below it that is neither blank nor a rule, the title is what line `k` says,
/// without marks, at most 100 characters of it.
pub proof fn law_label_names_the_recording(
    content: Seq<char>,
    i: int,
    k: int,
    label: (Seq<char>, Seq<char>, Seq<char>, Seq<char>, Seq<char>),
    topic: (Seq<char>, Seq<char>, Seq<char>),
)
    requires
        ({
            let lines = lines_of(body(content));
            let (hashes, gap, open, w, close) = label;
            &&& 0 <= i < k < lines.len()
            &&& lines[i] == hashes + gap + open + w + close
            &&& all_in(hashes, seq!['#']) && all_space(gap) && all_in(open, seq!['*']) && all_in(
                close,
                seq!['*'],
            )
            &&& hashes.len() == 0 ==> gap.len() == 0
            &&& plain_words(w) && !w.contains(':')
            &&& lowered(w) == "topic"@ || lowered(w) == "тема"@ || lowered(w) == "tema"@
            &&& lines[k] == topic.0 + topic.1 + topic.2
            &&& all_in(topic.0, seq!['-', '*', ' ']) && all_in(topic.2, seq!['*'])
            &&& topic.0.len() > 0 ==> topic.0[0] != ' '
            &&& plain_words(topic.1)
            &&& forall|j: int|
                i < j < k ==> all_space(#[trigger] lines[j]) || trimmed(lines[j]) == "---"@
            &&& forall|j: int| 0 <= j < i ==> #[trigger] topic_at(lines, j) is None
        }),
    ensures
        title_in(content) == Some(
            if topic.1.len() > 100 {
                topic.1.take(100)
            } else {
                topic.1
            },
        ),
{
    let lines = lines_of(body(content));
    law_label_in_marks(label.0, label.1, label.2, label.3, label.4);
    law_topic_below_label(topic.0, topic.1, topic.2);
    assert forall|j: int| i + 1 <= j < k implies topic_below(#[trigger] lines[j]) is None by {
        law_blank(lines[j]);
    }
    lemma_next_topic(lines, i + 1, k);
    lemma_labelled_topic(lines, 0, i);
}

/// A heading names the recording only where no label leads to a topic: then it is the
/// first one that says something. With neither there is no title.
pub proof fn law_heading_names_the_rest(content: Seq<char>)
    ensures
        ({
            let lines = lines_of(body(content));
            (forall|j: int| 0 <= j < lines.len() ==> #[trigger] topic_at(lines, j) is None) ==> {
                &&& forall|i: int|
                    0 <= i < lines.len() && heading_title(#[trigger] lines[i]) is Some && (forall|
                        j: int,
                    |
                        0 <= j < i ==> heading_title(#[trigger] lines[j]) is None) ==> title_in(
                        content,
                    ) == heading_title(lines[i])
                &&& (forall|i: int| 0 <= i < lines.len() ==> heading_title(#[trigger] lines[i]) is None)
                    ==> title_in(content) is None
            }
        }),
{
    let lines = lines_of(body(content));
    if forall|j: int| 0 <= j < lines.len() ==> #[trigger] topic_at(lines, j) is None {
        lemma_no_topic(lines, 0);
        assert forall|i: int|
            0 <= i < lines.len() && heading_title(#[trigger] lines[i]) is Some && (forall|j: int|
                0 <= j < i ==> heading_title(#[trigger] lines[j]) is None) implies title_in(content)
            == heading_title(lines[i]) by {
            lemma_first_heading(lines, 0, i);
        }
        if forall|i: int| 0 <= i < lines.len() ==> heading_title(#[trigger] lines[i]) is None {
            lemma_no_heading(lines, 0);
        }
    }
}

proof fn lemma_no_heading(lines: Seq<Seq<char>>, from: int)
    requires
        0 <= from,
        forall|i: int| from <= i < lines.len() ==> heading_title(#[trigger] lines[i]) is None,
    ensures
        first_heading(lines, from) is None,
    decreases lines.len() - from,
{
    if from < lines.len() {
        assert(heading_title(lines[from]) is None);
        lemma_no_heading(lines, from + 1);
    }
}

/// A heading gives its own words, at most 100 characters of them, unless they say nothing
/// of the content. A line that does not begin with a heading mark is none.
pub proof fn law_heading_says_its_words(
    front: Seq<char>,
    hashes: Seq<char>,
    gap: Seq<char>,
    y: Seq<char>,
)
    requires
        all_space(front),
        all_in(hashes, seq!['#']),
        all_space(gap),
        y.len() > 0,
        tight(y),
        y[0] != '#',
    ensures
        hashes.len() > 0 ==> heading_title(front + hashes + gap + y) == if generic_heading(
            lowered(y),
        ) {
            None
        } else {
            Some(
                if y.len() > 100 {
                    y.take(100)
                } else {
                    y
                },
            )
        },
        heading_title(front + y) is None,
{
    lemma_marks();
    let none = Seq::<char>::empty();
    law_trimmed_around(front, y, none);
    assert(front + y + none =~= front + y);
    if starts(y, "#"@) {
        assert(y.subrange(0, 1)[0] == y[0]);
    }
    if hashes.len() > 0 {
        let mark = hashes + gap + y;
        assert(mark[0] == hashes[0] && seq!['#'].contains(hashes[0]));
        assert(mark.last() == y.last());
        law_trimmed_around(front, mark, none);
        assert(front + mark + none =~= front + hashes + gap + y);
        assert(mark.subrange(0, 1) =~= "#"@);
        let rest = gap + y;
        assert(mark =~= hashes + rest);
        assert(rest[0] != '#') by {
            if gap.len() > 0 {
                assert(is_space(gap[0]));
            }
        }
        law_stripped_start(hashes, rest, "#"@);
        law_trimmed_around(gap, y, none);
        assert(gap + y + none =~= rest);
    }
}

/// The topic behind a label and a colon is what stands there: without white space and
/// emphasis marks around it, at most 100 characters of it.
pub proof fn law_inline_topic(
    open: Seq<char>,
    w: Seq<char>,
    close: Seq<char>,
    more: Seq<char>,
    gap: Seq<char>,
    y: Seq<char>,
)
    requires
        all_in(open, seq!['*']),
        all_in(close, seq!['*']),
        all_in(more, seq!['*']),
        all_space(gap),
        plain_words(w),
        !w.contains(':'),
        plain_words(y),
    ensures
        is_topic_line(open + w + close + seq![':'] + more + gap + y) == (lowered(w) == "topic"@
            || lowered(w) == "тема"@ || lowered(w) == "tema"@),
        inline_topic(open + w + close + seq![':'] + more + gap + y) == Some(
            if y.len() > 100 {
                y.take(100)
            } else {
                y
            },
        ),
{
    lemma_marks();
    let none = Seq::<char>::empty();
    let head = open + w + close;
    let value = more + gap + y;
    let line = open + w + close + seq![':'] + more + gap + y;
    assert(line =~= head + seq![':'] + value);
    law_label_in_marks(none, none, open, w, close);
    assert(none + none + open + w + close =~= head);
    lemma_no_colon(none, none, open, w, close);
    let n = head.len() as int;
    crate::text::lemma_until(head, ':');
    crate::text::lemma_until(line, ':');
    assert(line[n] == ':');
    assert forall|i: int| 0 <= i < n implies line[i] != ':' by {
        assert(line[i] == head[i]);
    }
    assert(until(line, ':') == n);
    assert(line.last() == y.last());
    assert(!is_space(line[0]) && !is_space(head[0]) && !is_space(head.last())) by {
        if open.len() > 0 {
            assert(head[0] == open[0] && seq!['*'].contains(open[0]));
        } else {
            assert(head[0] == w[0]);
        }
        if close.len() > 0 {
            assert(head.last() == close.last() && seq!['*'].contains(close[close.len() - 1]));
        } else {
            assert(head.last() == w.last());
        }
        assert(line[0] == head[0]);
    }
    law_trimmed_around(none, line, none);
    assert(none + line + none =~= line);
    law_trimmed_around(none, head, none);
    assert(none + head + none =~= head);
    assert(line.take(n) =~= head);
    assert(head.take(head.len() as int) =~= head);
    assert(line.skip(n + 1) =~= value);
    law_trimmed_around(none, y, none);
    assert(none + y + none =~= y);
    if more.len() > 0 {
        assert(value[0] == more[0] && seq!['*'].contains(more[0]));
        assert(value.last() == y.last());
        law_trimmed_around(none, value, none);
        assert(none + value + none =~= value);
        let inner = gap + y;
        assert(inner[0] != '*') by {
            if gap.len() > 0 {
                assert(is_space(gap[0]));
            }
        }
        assert(inner.last() == y.last());
        law_stripped_around(more, inner, none, "*"@);
        assert(more + inner + none =~= value);
        law_trimmed_around(gap, y, none);
        assert(gap + y + none =~= inner);
    } else {
        law_trimmed_around(gap, y, none);
        assert(gap + y + none =~= value);
        law_stripped_around(none, y, none, "*"@);
    }
}

/// The directory name of a run: the first run has the name of the pipeline,
/// later ones have their number behind it.
pub open spec fn run_dir_name(pipeline_name: Seq<char>, run_index: nat) -> Seq<char> {
    if run_index == 0 {
        pipeline_name
    } else {
        pipeline_name + ".run-"@ + decimal_of(run_index)
    }
}

/// The directory in which a run leaves its artifacts.
pub open spec fn output_dir_of(
    data_dir: Seq<char>,
    recording_id: Seq<char>,
    pipeline_name: Seq<char>,
    run_index: nat,
) -> Seq<char> {
    under(
        under(under(data_dir, recording_id), "pipelines"@),
        run_dir_name(pipeline_name, run_index),
    )
}

/// The directory in which a run leaves its artifacts.
pub fn get_pipeline_output_dir(
    data_dir: &str,
    recording_id: &str,
    pipeline_name: &str,
    run_index: usize,
) -> (r: String)
    ensures
        r@ == output_dir_of(data_dir@, recording_id@, pipeline_name@, run_index as nat),
{
    let name = if run_index == 0 {
        pipeline_name.to_owned()
    } else {
        joined3(pipeline_name, ".run-", decimal(run_index as u64).as_str())
    };
    path_join(
        path_join(path_join(data_dir, recording_id).as_str(), "pipelines").as_str(),
        name.as_str(),
    )
}

/// Runs of one pipeline on one recording have directories of their own.
pub proof fn law_runs_are_apart(
    data_dir: Seq<char>,
    recording_id: Seq<char>,
    pipeline_name: Seq<char>,
    a: nat,
    b: nat,
)
    requires
        a != b,
        !starts(pipeline_name, "/"@),
    ensures
        output_dir_of(data_dir, recording_id, pipeline_name, a) != output_dir_of(
            data_dir,
            recording_id,
            pipeline_name,
            b,
        ),
{
    let x = run_dir_name(pipeline_name, a);
    let y = run_dir_name(pipeline_name, b);
    lemma_run_dir_relative(pipeline_name, a);
    lemma_run_dir_relative(pipeline_name, b);
    reveal_strlit(".run-");
    if x == y {
        if a == 0 || b == 0 {
            assert(x.len() == y.len());
            assert(".run-"@.len() == 5);
        } else {
            let n = (pipeline_name + ".run-"@).len() as int;
            assert(x.skip(n) =~= decimal_of(a));
            assert(y.skip(n) =~= decimal_of(b));
            crate::text::lemma_decimal_injective(a, b);
        }
    }
    let base = under(under(data_dir, recording_id), "pipelines"@);
    if under(base, x) == under(base, y) {
        crate::paths::law_under_is_injective(base, x, y);
    }
}

/// First runs of different pipelines on one recording have directories of
/// their own.
pub proof fn law_pipelines_are_apart(
    data_dir: Seq<char>,
    recording_id: Seq<char>,
    a: Seq<char>,
    b: Seq<char>,
)
    requires
        a != b,
        !starts(a, "/"@),
        !starts(b, "/"@),
    ensures
        output_dir_of(data_dir, recording_id, a, 0) != output_dir_of(data_dir, recording_id, b, 0),
{
    let base = under(under(data_dir, recording_id), "pipelines"@);
    if under(base, a) == under(base, b) {
        crate::paths::law_under_is_injective(base, a, b);
    }
}

proof fn lemma_run_dir_relative(pipeline_name: Seq<char>, n: nat)
    requires
        !starts(pipeline_name, "/"@),
    ensures
        !starts(run_dir_name(pipeline_name, n), "/"@),
{
    reveal_strlit("/");
    reveal_strlit(".run-");
    let d = run_dir_name(pipeline_name, n);
    if starts(d, "/"@) {
        assert(d.subrange(0, 1)[0] == d[0]);
        assert(d[0] == '/');
        if pipeline_name.len() > 0 {
            assert(pipeline_name[0] == '/');
            assert(pipeline_name.subrange(0, 1) =~= "/"@);
        } else if n > 0 {
            assert(d[0] == '.');
        }
    }
}

/// The application name for the `{app}` placeholder.
pub open spec fn app_name(friendly: Option<Seq<char>>) -> Seq<char> {
    match friendly {
        Some(n) if trimmed(n).len() > 0 => n,
        _ => "NBP"@,
    }
}

/// The application name for the `{app}` placeholder: what was noted when the
/// recording began, else "NBP".
pub fn resolve_app_name(app_friendly_name: Option<&str>) -> (r: String)
    ensures
        r@ == app_name(str_view(app_friendly_name)),
{
    match app_friendly_name {
        Some(n) => if blank(n) {
            "NBP".to_owned()
        } else {
            n.to_owned()
        },
        None => "NBP".to_owned(),
    }
}

/// What a template gives with its placeholders filled, one after the other.
pub open spec fn rendered(
    template: Seq<char>,
    transcript: Seq<char>,
    app: Seq<char>,
    processing_result: Seq<char>,
    calendar_title: Seq<char>,
    calendar_attendees: Seq<char>,
    date: Seq<char>,
) -> Seq<char> {
    let a = replaced(template, "{transcript}"@, transcript);
    let b = replaced(a, "{app}"@, app);
    let c = replaced(b, "{processing_result}"@, processing_result);
    let d = replaced(c, "{calendar_title}"@, calendar_title);
    let e = replaced(d, "{calendar_attendees}"@, calendar_attendees);
    replaced(e, "{date}"@, date)
}

proof fn lemma_placeholders_filled()
    ensures
        "{transcript}"@.len() > 0,
        "{app}"@.len() > 0,
        "{processing_result}"@.len() > 0,
        "{calendar_title}"@.len() > 0,
        "{calendar_attendees}"@.len() > 0,
        "{date}"@.len() > 0,
{
    reveal_strlit("{transcript}");
    reveal_strlit("{app}");
    reveal_strlit("{processing_result}");
    reveal_strlit("{calendar_title}");
    reveal_strlit("{calendar_attendees}");
    reveal_strlit("{date}");
}

/// Fills the placeholders of a template. A value that is missing is empty.
pub fn render_template(
    template: &str,
    transcript: &str,
    app: &str,
    processing_result: &str,
    calendar_title: &str,
    calendar_attendees: &str,
    date: &str,
) -> (r: String)
    ensures
        r@ == rendered(
            template@,
            transcript@,
            app@,
            processing_result@,
            calendar_title@,
            calendar_attendees@,
            date@,
        ),
{
    proof {
        lemma_placeholders_filled();
    }
    let a = replace_all(template, "{transcript}", transcript);
    let b = replace_all(a.as_str(), "{app}", app);
    let c = replace_all(b.as_str(), "{processing_result}", processing_result);
    let d = replace_all(c.as_str(), "{calendar_title}", calendar_title);
    let e = replace_all(d.as_str(), "{calendar_attendees}", calendar_attendees);
    replace_all(e.as_str(), "{date}", date)
}

/// A template without placeholders passes through as it is.
pub proof fn law_plain_template_is_verbatim(
    template: Seq<char>,
    transcript: Seq<char>,
    app: Seq<char>,
    processing_result: Seq<char>,
    calendar_title: Seq<char>,
    calendar_attendees: Seq<char>,
    date: Seq<char>,
)
    requires
        !occurs(template, "{transcript}"@),
        !occurs(template, "{app}"@),
        !occurs(template, "{processing_result}"@),
        !occurs(template, "{calendar_title}"@),
        !occurs(template, "{calendar_attendees}"@),
        !occurs(template, "{date}"@),
    ensures
        rendered(
            template,
            transcript,
            app,
            processing_result,
            calendar_title,
            calendar_attendees,
            date,
        ) == template,
{
    crate::text::lemma_replaced_absent(template, "{transcript}"@, transcript);
    crate::text::lemma_replaced_absent(template, "{app}"@, app);
    crate::text::lemma_replaced_absent(template, "{processing_result}"@, processing_result);
    crate::text::lemma_replaced_absent(template, "{calendar_title}"@, calendar_title);
    crate::text::lemma_replaced_absent(template, "{calendar_attendees}"@, calendar_attendees);
    crate::text::lemma_replaced_absent(template, "{date}"@, date);
}

/// A placeholder with no brace in what it stands for.
proof fn lemma_filled_one(
    a: Seq<char>,
    own: Seq<char>,
    value: Seq<char>,
    rest: Seq<char>,
)
    requires
        !a.contains('{'),
        own.len() > 0 && own[0] == '{',
        forall|k: int| 0 < k < own.len() ==> own[k] != '{',
    ensures
        replaced(a + own + rest, own, value) == a + value + replaced(rest, own, value),
{
    let all = a + own + rest;
    assert forall|j: int| 0 <= j < a.len() implies !occurs_at(all, own, j) by {
        if occurs_at(all, own, j) {
            assert(all.subrange(j, j + own.len())[0] == a[j]);
            assert(a.contains(a[j]));
        }
    }
    crate::text::law_replaced(a, own, value, rest);
}

/// Another placeholder than the one that is filled stays, and so does a text without a
/// brace.
proof fn lemma_filled_other(
    a: Seq<char>,
    own: Seq<char>,
    other: Seq<char>,
    value: Seq<char>,
    rest: Seq<char>,
)
    requires
        !a.contains('{'),
        own.len() > 0 && own[0] == '{',
        forall|k: int| 0 < k < own.len() ==> own[k] != '{',
        other.len() > 0 && other[0] == '{',
        forall|k: int| 0 < k < other.len() ==> other[k] != '{',
        other.last() == '}',
        forall|k: int| 0 <= k < other.len() - 1 ==> other[k] != '}',
        own.last() == '}',
        forall|k: int| 0 <= k < own.len() - 1 ==> own[k] != '}',
        own != other,
    ensures
        replaced(a + own + rest, other, value) == a + own + replaced(rest, other, value),
{
    let tail = own.skip(1);
    crate::text::law_replaced_behind(a, own + rest, other, value);
    let all = own + rest;
    assert(a + own + rest =~= a + all);
    if starts(all, other) {
        let m = other.len() as int;
        let n = own.len() as int;
        let head = all.subrange(0, m);
        assert(head == other);
        if m > n {
            assert(head[n - 1] == own[n - 1]);
            assert(other[n - 1] == '}');
        } else if m < n {
            assert(head[m - 1] == own[m - 1]);
            assert(own[m - 1] == '}');
        } else {
            assert(own =~= other) by {
                assert forall|k: int| 0 <= k < n implies own[k] == other[k] by {
                    assert(head[k] == all[k]);
                }
            }
        }
    }
    if tail.contains('{') {
        let k = choose|k: int| 0 <= k < tail.len() && tail[k] == '{';
        assert(own[k + 1] == '{');
    }
    crate::text::law_replaced_behind(tail, rest, other, value);
    assert(all.skip(1) =~= tail + rest);
    assert(replaced(all, other, value) =~= own + replaced(rest, other, value));
    assert(a + (own + replaced(rest, other, value)) =~= a + own + replaced(rest, other, value));
}

/// What a placeholder looks like.
pub open spec fn is_placeholder(p: Seq<char>) -> bool {
    &&& p.len() > 1 && p[0] == '{' && p.last() == '}'
    &&& forall|k: int| 0 < k < p.len() ==> p[k] != '{'
    &&& forall|k: int| 0 <= k < p.len() - 1 ==> p[k] != '}'
}

#[verifier::rlimit(40)]
proof fn lemma_placeholders()
    ensures
        is_placeholder("{transcript}"@),
        is_placeholder("{app}"@),
        is_placeholder("{processing_result}"@),
        is_placeholder("{calendar_title}"@),
        is_placeholder("{calendar_attendees}"@),
        is_placeholder("{date}"@),
        "{transcript}"@ != "{app}"@,
        "{transcript}"@ != "{processing_result}"@,
        "{transcript}"@ != "{calendar_title}"@,
        "{transcript}"@ != "{calendar_attendees}"@,
        "{transcript}"@ != "{date}"@,
        "{app}"@ != "{processing_result}"@,
        "{app}"@ != "{calendar_title}"@,
        "{app}"@ != "{calendar_attendees}"@,
        "{app}"@ != "{date}"@,
        "{processing_result}"@ != "{calendar_title}"@,
        "{processing_result}"@ != "{calendar_attendees}"@,
        "{processing_result}"@ != "{date}"@,
        "{calendar_title}"@ != "{calendar_attendees}"@,
        "{calendar_title}"@ != "{date}"@,
        "{calendar_attendees}"@ != "{date}"@,
{
    reveal_strlit("{transcript}");
    reveal_strlit("{app}");
    reveal_strlit("{processing_result}");
    reveal_strlit("{calendar_title}");
    reveal_strlit("{calendar_attendees}");
    reveal_strlit("{date}");
    assert("{transcript}"@.len() == 12);
    assert("{app}"@.len() == 5);
    assert("{processing_result}"@.len() == 19);
    assert("{calendar_title}"@.len() == 16);
    assert("{calendar_attendees}"@.len() == 20);
    assert("{date}"@.len() == 6);
}

/// Each placeholder of a template stands for its own value: text without a brace, then a
/// placeholder, then any rest give the text, the value and what the rest gives. The value
/// has no brace in it, so that it is not filled in turn.
#[verifier::rlimit(60)]
pub proof fn law_placeholders_are_filled(
    a: Seq<char>,
    rest: Seq<char>,
    transcript: Seq<char>,
    app: Seq<char>,
    result: Seq<char>,
    title: Seq<char>,
    attendees: Seq<char>,
    date: Seq<char>,
)
    requires
        !a.contains('{'),
    ensures
        ({
            let gives = |t: Seq<char>|
                rendered(t, transcript, app, result, title, attendees, date);
            &&& gives(a + rest) == a + gives(rest)
            &&& !transcript.contains('{') ==> gives(a + "{transcript}"@ + rest) == a + transcript
                + gives(rest)
            &&& !app.contains('{') ==> gives(a + "{app}"@ + rest) == a + app + gives(rest)
            &&& !result.contains('{') ==> gives(a + "{processing_result}"@ + rest) == a + result
                + gives(rest)
            &&& !title.contains('{') ==> gives(a + "{calendar_title}"@ + rest) == a + title
                + gives(rest)
            &&& !attendees.contains('{') ==> gives(a + "{calendar_attendees}"@ + rest) == a
                + attendees + gives(rest)
            &&& !date.contains('{') ==> gives(a + "{date}"@ + rest) == a + date + gives(rest)
        }),
{
    lemma_placeholders();
    let names = seq![
        "{transcript}"@,
        "{app}"@,
        "{processing_result}"@,
        "{calendar_title}"@,
        "{calendar_attendees}"@,
        "{date}"@,
    ];
    let values = seq![transcript, app, result, title, attendees, date];
    assert forall|i: int, j: int| 0 <= i < j < 6 implies names[i] != names[j] by {}
    lemma_filled_all(a, rest, names, values, 6);
    lemma_filling(a + rest, names, values);
    lemma_filling(rest, names, values);
    lemma_filling(a + names[0] + rest, names, values);
    lemma_filling(a + names[1] + rest, names, values);
    lemma_filling(a + names[2] + rest, names, values);
    lemma_filling(a + names[3] + rest, names, values);
    lemma_filling(a + names[4] + rest, names, values);
    lemma_filling(a + names[5] + rest, names, values);
    assert(filling(a + rest, names, values, 6) == a + filling(rest, names, values, 6));
}

/// The first `n` placeholders filled, one after the other.
spec fn filling(t: Seq<char>, names: Seq<Seq<char>>, values: Seq<Seq<char>>, n: int) -> Seq<char>
    decreases n,
{
    if n <= 0 {
        t
    } else {
        replaced(filling(t, names, values, n - 1), names[n - 1], values[n - 1])
    }
}

proof fn lemma_filling(t: Seq<char>, names: Seq<Seq<char>>, values: Seq<Seq<char>>)
    requires
        names == seq![
            "{transcript}"@,
            "{app}"@,
            "{processing_result}"@,
            "{calendar_title}"@,
            "{calendar_attendees}"@,
            "{date}"@,
        ],
        values.len() == 6,
    ensures
        filling(t, names, values, 6) == rendered(
            t,
            values[0],
            values[1],
            values[2],
            values[3],
            values[4],
            values[5],
        ),
{
    reveal_with_fuel(filling, 7);
}

proof fn lemma_filled_all(
    a: Seq<char>,
    rest: Seq<char>,
    names: Seq<Seq<char>>,
    values: Seq<Seq<char>>,
    n: int,
)
    requires
        !a.contains('{'),
        0 <= n <= names.len(),
        values.len() == names.len(),
        forall|i: int| 0 <= i < names.len() ==> is_placeholder(#[trigger] names[i]),
        forall|i: int, j: int| 0 <= i < j < names.len() ==> names[i] != names[j],
    ensures
        filling(a + rest, names, values, n) == a + filling(rest, names, values, n),
        forall|k: int|
            n <= k < names.len() ==> filling(a + (#[trigger] names[k]) + rest, names, values, n)
                == a + names[k] + filling(rest, names, values, n),
        forall|k: int|
            0 <= k < n && !values[k].contains('{') ==> filling(
                a + (#[trigger] names[k]) + rest,
                names,
                values,
                n,
            ) == a + values[k] + filling(rest, names, values, n),
    decreases n,
{
    if n > 0 {
        lemma_filled_all(a, rest, names, values, n - 1);
        let p = names[n - 1];
        let v = values[n - 1];
        let before = filling(rest, names, values, n - 1);
        assert(is_placeholder(p));
        crate::text::law_replaced_behind(a, before, p, v);
        assert forall|k: int| n <= k < names.len() implies filling(
            a + (#[trigger] names[k]) + rest,
            names,
            values,
            n,
        ) == a + names[k] + filling(rest, names, values, n) by {
            assert(is_placeholder(names[k]));
            assert(names[n - 1] != names[k]);
            lemma_filled_other(a, names[k], p, v, before);
        }
        assert forall|k: int| 0 <= k < n && !values[k].contains('{') implies filling(
            a + (#[trigger] names[k]) + rest,
            names,
            values,
            n,
        ) == a + values[k] + filling(rest, names, values, n) by {
            if k == n - 1 {
                lemma_filled_one(a, p, v, before);
            } else {
                let done = a + values[k];
                if done.contains('{') {
                    let m = choose|m: int| 0 <= m < done.len() && done[m] == '{';
                    if m < a.len() {
                        assert(a[m] == '{');
                    } else {
                        assert(values[k][m - a.len()] == '{');
                    }
                }
                crate::text::law_replaced_behind(done, before, p, v);
            }
        }
    }
}

/// How an attendee is called: by name, else by address.
pub open spec fn called(a: Attendee) -> Option<Seq<char>> {
    match a.name {
        Some(n) => Some(n@),
        None => name_view(a.email),
    }
}

/// How the first `n` attendees are called; who has neither is left out.
pub open spec fn all_called(attendees: Seq<Attendee>, n: int) -> Seq<Seq<char>>
    decreases n,
{
    if n <= 0 {
        Seq::empty()
    } else {
        match called(attendees[n - 1]) {
            Some(c) => all_called(attendees, n - 1).push(c),
            None => all_called(attendees, n - 1),
        }
    }
}

/// The attendees for the `{calendar_attendees}` placeholder: names, or
/// addresses, with commas between them.
pub fn format_attendees(attendees: &Vec<Attendee>) -> (r: String)
    ensures
        r@ == joined_by(all_called(attendees@, attendees@.len() as int), ", "@),
{
    let mut names: Vec<String> = Vec::new();
    assert(views(names@) =~= Seq::empty());
    let mut i: usize = 0;
    while i < attendees.len()
        invariant
            i <= attendees@.len(),
            views(names@) == all_called(attendees@, i as int),
        decreases attendees@.len() - i,
    {
        let a = &attendees[i];
        let ghost before = names@;
        match &a.name {
            Some(n) => {
                names.push(n.clone());
                assert(views(names@) =~= views(before).push(n@));
            },
            None => match &a.email {
                Some(e) => {
                    names.push(e.clone());
                    assert(views(names@) =~= views(before).push(e@));
                },
                None => {},
            },
        }
        i += 1;
    }
    join(&names, ", ")
}

/// The attendees are listed in order, each by name, else by address, with a comma between
/// them; who has neither is not listed.
pub proof fn law_attendees(attendees: Seq<Attendee>, last: Attendee)
    ensures
        ({
            let n = attendees.len() as int;
            let before = joined_by(all_called(attendees, n), seq![',', ' ']);
            let all = attendees.push(last);
            let after = joined_by(all_called(all, n + 1), seq![',', ' ']);
            let first = all_called(attendees, n).len() == 0;
            &&& last.name matches Some(x) ==> after == (if first {
                x@
            } else {
                before + seq![',', ' '] + x@
            })
            &&& last.name is None ==> {
                &&& last.email matches Some(x) ==> after == (if first {
                    x@
                } else {
                    before + seq![',', ' '] + x@
                })
                &&& last.email is None ==> after == before
            }
        }),
        ", "@ == seq![',', ' '],
{
    reveal_strlit(", ");
    assert(", "@ =~= seq![',', ' ']);
    let n = attendees.len() as int;
    let all = attendees.push(last);
    lemma_called_prefix(attendees, all, n);
    match called(last) {
        Some(c) => {
            crate::text::law_joined(all_called(attendees, n), c, seq![',', ' ']);
            if all_called(attendees, n).len() == 0 {
                assert(all_called(all, n + 1) =~= seq![c]);
            }
        },
        None => {},
    }
}

proof fn lemma_called_prefix(a: Seq<Attendee>, b: Seq<Attendee>, n: int)
    requires
        n <= a.len(),
        n <= b.len(),
        forall|i: int| 0 <= i < n ==> a[i] == b[i],
    ensures
        all_called(a, n) == all_called(b, n),
    decreases n,
{
    if n > 0 {
        lemma_called_prefix(a, b, n - 1);
        assert(a[n - 1] == b[n - 1]);
    }
}

/// The date of a recording for the `{date}` placeholder, in local time; empty
/// where the stamp cannot be read. Which of the dates at that instant it is depends
/// on the time zone of the machine.
pub fn format_date(rfc3339: &str) -> (r: String)
    ensures
        match crate::time::rfc3339_result(rfc3339@) {
            Some(at) => crate::time::is_local_date(r@, at),
            None => r@.len() == 0,
        },
{
    match crate::time::local_date(rfc3339, "%Y-%m-%d") {
        Some(d) => d,
        None => String::new(),
    }
}

/// What a connector is told its input is.
pub open spec fn input_label(rendered_input: Seq<char>) -> Seq<char> {
    if rendered_input.len() == 0 {
        "empty"@
    } else {
        "rendered-template"@
    }
}

/// The values that fill a template, for all steps of a run.
#[derive(Debug)]
pub struct StepContext {
    pub transcript: String,
    pub app: String,
    /// When the recording began.
    pub started_at: String,
    pub output_dir: String,
    pub calendar_title: String,
    pub calendar_attendees: String,
    pub date: String,
}

impl StepContext {
    /// The input that a step gets after `processing_result`.
    pub open spec fn input_of(self, template: Seq<char>, processing_result: Seq<char>) -> Seq<
        char,
    > {
        rendered(
            template,
            self.transcript@,
            self.app@,
            processing_result,
            self.calendar_title@,
            self.calendar_attendees@,
            self.date@,
        )
    }

    /// The input that a step gets after `processing_result`.
    pub fn input(&self, template: &str, processing_result: &str) -> (r: String)
        ensures
            r@ == self.input_of(template@, processing_result@),
    {
        render_template(
            template,
            self.transcript.as_str(),
            self.app.as_str(),
            processing_result,
            self.calendar_title.as_str(),
            self.calendar_attendees.as_str(),
            self.date.as_str(),
        )
    }
}

/// How a step is handed to its connector.
#[derive(Debug)]
pub struct Dispatch {
    pub step_type: StepType,
    /// The filled template.
    pub input: String,
    /// What the connector is told its input is.
    pub label: String,
    /// Where the input is left for the connector to read.
    pub input_file: String,
    /// Where the connector leaves its artifact.
    pub artifact_file: String,
}

/// Prepares a step: fills its template and names its files.
pub fn prepare_step(step: &PipelineStep, processing_result: &str, ctx: &StepContext) -> (r:
    Dispatch)
    ensures
        r.step_type == step.step_type,
        r.input@ == ctx.input_of(step.template@, processing_result@),
        r.label@ == input_label(r.input@),
        r.input_file@ == under(ctx.output_dir@, "."@ + step.name@ + ".input.txt"@),
        r.artifact_file@ == under(ctx.output_dir@, step.name@ + ".md"@),
{
    let input = ctx.input(step.template.as_str(), processing_result);
    let label = if input.as_str().is_empty() {
        "empty".to_owned()
    } else {
        "rendered-template".to_owned()
    };
    let input_file = path_join(
        ctx.output_dir.as_str(),
        joined3(".", step.name.as_str(), ".input.txt").as_str(),
    );
    let artifact_file = path_join(
        ctx.output_dir.as_str(),
        joined(step.name.as_str(), ".md").as_str(),
    );
    Dispatch { step_type: step.step_type, input, label, input_file, artifact_file }
}

/// What a step hands on to the next: a step that saves its input hands that
/// on, any other the body of its artifact (nothing where it cannot be read).
pub open spec fn handed_on(
    step_type: StepType,
    input: Seq<char>,
    artifact: Option<Seq<char>>,
) -> Seq<char> {
    if step_type == StepType::SaveLocal {
        input
    } else {
        match artifact {
            Some(a) => trimmed(body(a)),
            None => Seq::empty(),
        }
    }
}

/// What a step hands on to the next.
pub fn step_body(step_type: StepType, input: &str, artifact: Option<&str>) -> (r: String)
    ensures
        r@ == handed_on(step_type, input@, str_view(artifact)),
{
    if step_type == StepType::SaveLocal {
        input.to_owned()
    } else {
        match artifact {
            Some(a) => trim(strip_frontmatter(a).as_str()),
            None => String::new(),
        }
    }
}

/// A program's step hands on what follows the metadata of its artifact, without the white
/// space around it: of a well-formed block with `x` behind it, just `x`. Without a block
/// that is all of the artifact, without an artifact nothing. A step that saves hands its
/// input on, whatever became of it.
pub proof fn law_next_step_gets_the_text(
    step_type: StepType,
    input: Seq<char>,
    block: Seq<char>,
    x: Seq<char>,
)
    requires
        !occurs(block, "---"@),
        block.len() > 0 ==> block.last() != '-',
    ensures
        step_type != StepType::SaveLocal ==> {
            &&& handed_on(step_type, input, Some("---\n"@ + block + "---\n\n"@ + x)) == trimmed(x)
            &&& !starts(x, "---"@) ==> handed_on(step_type, input, Some(x)) == trimmed(x)
            &&& handed_on(step_type, input, None).len() == 0
        },
        forall|artifact: Option<Seq<char>>|
            #[trigger] handed_on(StepType::SaveLocal, input, artifact) == input,
{
    crate::frontmatter::law_split_of_framed(block, x);
    crate::text::law_space_in_front(seq!['\n', '\n'], x);
}

/// The configuration that an agent step hands to its connector: its own, with
/// the filled template as the complete prompt.
pub fn agent_config(config: Json, prompt: String) -> (r: Json)
    ensures
        r is Object,
        r.member("prompt"@) == Some(Json::Text(prompt)),
        r.member("prompt_complete"@) == Some(Json::Bool(true)),
        forall|key: Seq<char>|
            key != "prompt"@ && key != "prompt_complete"@ ==> #[trigger] r.member(key)
                == config.member(key),
{
    let mut entries = match config {
        Json::Object(entries) => entries,
        _ => Vec::new(),
    };
    assert forall|key: Seq<char>| #[trigger] entry_of(entries@, key) == config.member(key) by {};
    let _a = crate::json::take_entry(&mut entries, "prompt");
    let _b = crate::json::take_entry(&mut entries, "prompt_complete");
    let ghost rest = entries@;
    entries.insert(0, ("prompt_complete".to_owned(), Json::Bool(true)));
    assert(entries@.skip(1) =~= rest);
    let ghost middle = entries@;
    entries.insert(0, ("prompt".to_owned(), Json::Text(prompt)));
    assert(entries@.skip(1) =~= middle);
    proof {
        reveal_strlit("prompt");
        reveal_strlit("prompt_complete");
        assert("prompt"@.len() == 6);
        assert("prompt_complete"@.len() == 15);
        assert(entries@[0].0@ == "prompt"@);
        assert(middle[0].0@ == "prompt_complete"@);
        assert forall|key: Seq<char>|
            key != "prompt"@ && key != "prompt_complete"@ implies #[trigger] entry_of(
            entries@,
            key,
        ) == entry_of(rest, key) by {
            assert(entry_of(entries@, key) == entry_of(middle, key));
        }
        assert(entry_of(entries@, "prompt_complete"@) == entry_of(middle, "prompt_complete"@));
    }
    Json::Object(entries)
}

/// What connectors are called in artifacts.
pub open spec fn connector_label(step_type: StepType) -> Seq<char> {
    match step_type {
        StepType::CliAgent => "cliagent"@,
        StepType::Shell => "shell"@,
        StepType::SaveLocal => "savelocal"@,
    }
}

/// The metadata of the artifact of a step that was skipped.
pub open spec fn skipped_fields(step: PipelineStep, reason: Seq<char>, now: Seq<char>) -> Seq<
    (Seq<char>, Seq<char>),
> {
    seq![
        ("name"@, step.name@),
        (
            "description"@,
            quoted(
                escaped(
                    match step.description {
                        Some(d) => d@,
                        None => ""@,
                    },
                ),
            ),
        ),
        ("connector"@, connector_label(step.step_type)),
        ("status"@, "skipped"@),
        ("created_at"@, now),
        ("completed_at"@, now),
        ("error"@, quoted(escaped(reason))),
    ]
}

/// The artifact of a step that was skipped.
pub open spec fn skipped_artifact(
    step: PipelineStep,
    reason: Seq<char>,
    now: Seq<char>,
) -> Seq<char> {
    artifact(entries_of(skipped_fields(step, reason, now)), "## Skipped\n"@ + reason + "\n"@)
}

/// The artifact of a step that was skipped at `now`.
pub fn skipped_artifact_at(step: &PipelineStep, reason: &str, now: &str) -> (r: String)
    ensures
        r@ == skipped_artifact(*step, reason@, now@),
{
    let description = match &step.description {
        Some(d) => escape(d.as_str()),
        None => escape(""),
    };
    let connector = match step.step_type {
        StepType::CliAgent => "cliagent",
        StepType::Shell => "shell",
        StepType::SaveLocal => "savelocal",
    };
    let mut head: Vec<String> = Vec::new();
    head.push(write_entry("name", step.name.as_str()));
    head.push(write_quoted("description", description.as_str()));
    head.push(write_entry("connector", connector));
    head.push(write_entry("status", "skipped"));
    head.push(write_entry("created_at", now));
    head.push(write_entry("completed_at", now));
    head.push(write_quoted("error", escape(reason).as_str()));
    assert(views(head@) =~= entries_of(skipped_fields(*step, reason@, now@)));
    write_artifact(&head, joined3("## Skipped\n", reason, "\n").as_str())
}

/// The artifact of a step that was skipped reads back as skipped, for the reason that it
/// was written with. What goes into the metadata stands on one line, without `---`.
pub proof fn law_skipped_reads_back(step: PipelineStep, reason: Seq<char>, now: Seq<char>)
    requires
        one_line_each(skipped_fields(step, reason, now)),
    ensures
        reported(skipped_artifact(step, reason, now)).status == "skipped"@,
        reported(skipped_artifact(step, reason, now)).error == Some(
            stripped(quoted(escaped(reason)), "\""@),
        ),
{
    let fields = skipped_fields(step, reason, now);
    lemma_keys();
    lemma_quoted(escaped(reason));
    law_artifact_reads_back(fields, "## Skipped\n"@ + reason + "\n"@);
    reveal_strlit("skipped");
    assert(trimmed("skipped"@) =~= "skipped"@);
    reveal_with_fuel(field_in, 8);
}

/// A run of a pipeline that a step failed: which, and what it said.
#[derive(Debug)]
pub struct StepFailure {
    pub index: usize,
    pub error: String,
}

/// A pipeline that is being run. The steps are a chain: each gets what the one
/// before handed on, and after a failure none is run.
#[derive(Debug)]
pub struct PipelineRun {
    pub total: usize,
    /// How many steps succeeded; the next one to run.
    pub next: usize,
    /// What the last of them handed on; empty before the first.
    pub processing_result: String,
    pub failure: Option<StepFailure>,
}

/// What a run does next.
#[derive(Clone, Copy, Debug, PartialEq, Eq, Structural)]
pub enum RunAction {
    /// Run the step at this position.
    Step(usize),
    /// Nothing more to run.
    Finish,
}

impl PipelineRun {
    /// The failed step is the one after those that succeeded.
    pub open spec fn wf(self) -> bool {
        &&& self.next <= self.total
        &&& self.failure is Some ==> self.failure->0.index == self.next && self.next < self.total
        &&& self.next == 0 ==> self.processing_result@.len() == 0
    }

    /// Starts a run of a definition that has no fault.
    pub fn begin(pipeline: &Pipeline) -> (r: Result<PipelineRun, String>)
        ensures
            match r {
                Ok(run) => {
                    &&& pipeline_fault(*pipeline) is None
                    &&& run.wf()
                    &&& run.total == pipeline.steps@.len()
                    &&& run.total > 0
                    &&& run.next == 0
                    &&& run.processing_result@.len() == 0
                    &&& run.failure is None
                },
                Err(m) => pipeline_fault(*pipeline) == Some(m@),
            },
    {
        match validate_pipeline(pipeline) {
            Ok(_) => Ok(
                PipelineRun {
                    total: pipeline.steps.len(),
                    next: 0,
                    processing_result: String::new(),
                    failure: None,
                },
            ),
            Err(m) => Err(m),
        }
    }

    /// The next step, until all succeeded or one failed.
    pub fn action(&self) -> (r: RunAction)
        requires
            self.wf(),
        ensures
            r == if self.failure is None && self.next < self.total {
                RunAction::Step(self.next)
            } else {
                RunAction::Finish
            },
    {
        if self.failure.is_none() && self.next < self.total {
            RunAction::Step(self.next)
        } else {
            RunAction::Finish
        }
    }

    /// The step succeeded and handed `body` on.
    pub fn step_done(&mut self, body: String)
        requires
            old(self).wf(),
            old(self).failure is None,
            old(self).next < old(self).total,
        ensures
            final(self).wf(),
            *final(self) == (PipelineRun {
                next: (old(self).next + 1) as usize,
                processing_result: body,
                ..*old(self)
            }),
    {
        self.next = self.next + 1;
        self.processing_result = body;
    }

    /// The step failed.
    pub fn step_failed(&mut self, error: String)
        requires
            old(self).wf(),
            old(self).failure is None,
            old(self).next < old(self).total,
        ensures
            final(self).wf(),
            *final(self) == (PipelineRun {
                failure: Some(StepFailure { index: old(self).next, error }),
                ..*old(self)
            }),
    {
        self.failure = Some(StepFailure { index: self.next, error });
    }

    /// How the run ended.
    pub open spec fn outcome(self) -> PipelineStatus {
        if self.failure is Some {
            PipelineStatus::Partial
        } else {
            PipelineStatus::Done
        }
    }

    /// How the run ended: `Partial` exactly if a step failed.
    pub fn status(&self) -> (r: PipelineStatus)
        ensures
            r == self.outcome(),
    {
        if self.failure.is_some() {
            PipelineStatus::Partial
        } else {
            PipelineStatus::Done
        }
    }

    /// What the failed step said.
    pub fn error(&self) -> (r: Option<String>)
        ensures
            name_view(r) == match self.failure {
                Some(f) => Some(f.error@),
                None => None,
            },
    {
        match &self.failure {
            Some(f) => Some(f.error.clone()),
            None => None,
        }
    }

    /// The step at this position failed, or was not run because one before it
    /// failed.
    pub open spec fn lost(self, i: int) -> bool {
        self.failure is Some && self.failure->0.index <= i < self.total
    }

    /// Whether the step at this position failed or was not run.
    pub fn is_lost(&self, i: usize) -> (r: bool)
        ensures
            r == self.lost(i as int),
    {
        match &self.failure {
            Some(f) => f.index <= i && i < self.total,
            None => false,
        }
    }

    /// The step whose output gives the recording its title: the first that
    /// succeeded.
    pub fn title_step(&self) -> (r: Option<usize>)
        requires
            self.wf(),
        ensures
            match r {
                Some(i) => i == 0 && self.total > 0 && !self.lost(0),
                None => self.total == 0 || self.lost(0),
            },
    {
        if self.total == 0 || self.is_lost(0) {
            None
        } else {
            Some(0)
        }
    }
}

/// In a chain a failed step stops what comes after it: those before it all
/// succeeded, it and those after it are lost.
pub proof fn law_failure_halts_the_chain(run: PipelineRun, i: int)
    requires
        run.wf(),
        run.failure is Some,
        0 <= i < run.total,
    ensures
        run.lost(i) <==> i >= run.next,
        run.outcome() == PipelineStatus::Partial,
{
}

/// Why the steps after a failure are skipped.
pub fn skip_reason() -> (r: String)
    ensures
        r@ == "Skipped because a preceding processing step failed"@,
{
    "Skipped because a preceding processing step failed".to_owned()
}

/// What is said where a pipeline is gone when its turn comes.
pub fn deleted_message(pipeline_name: &str) -> (r: String)
    ensures
        r@ == "Pipeline '"@ + pipeline_name@ + "' was deleted before execution"@,
{
    joined3("Pipeline '", pipeline_name, "' was deleted before execution")
}

/// A title that nobody chose.
pub open spec fn default_title(title: Seq<char>) -> bool {
    title.len() == 0 || title == "Untitled Recording"@ || starts(title, "Recording "@)
}

/// Titles that nobody chose: none at all, the placeholder, and those made of the time.
/// Every other one was chosen.
pub proof fn law_default_titles(title: Seq<char>, rest: Seq<char>)
    ensures
        default_title("Recording "@ + rest),
        default_title("Untitled Recording"@),
        default_title(Seq::<char>::empty()),
        title.len() > 0 && title != "Untitled Recording"@ && (forall|x: Seq<char>|
            title != #[trigger] ("Recording "@ + x)) ==> !default_title(title),
{
    crate::text::law_after_prefix("Recording "@, rest, title);
    if starts(title, "Recording "@) {
        let x = title.skip("Recording "@.len() as int);
        assert(title == "Recording "@ + x);
    }
}

/// Whether a recording still has a title that nobody chose.
pub fn needs_title(title: &str) -> (r: bool)
    ensures
        r == default_title(title@),
{
    title.is_empty() || same(title, "Untitled Recording") || begins(title, "Recording ")
}

/// The title for the `{calendar_title}` placeholder: that of a matched event.
pub fn calendar_title(matched: bool, title: &str) -> (r: String)
    ensures
        r@ == if matched {
            title@
        } else {
            Seq::<char>::empty()
        },
{
    if matched {
        title.to_owned()
    } else {
        String::new()
    }
}

/// What a listener is told of a step.
pub fn progress_payload(
    recording_id: &str,
    pipeline_name: &str,
    step: &PipelineStep,
    step_index: usize,
    total_steps: usize,
    status: &str,
) -> (r: crate::pipelines::PipelineProgressPayload)
    ensures
        r.recording_id@ == recording_id@,
        r.pipeline_name@ == pipeline_name@,
        r.step_name@ == step.name@,
        r.step_index == step_index,
        r.total_steps == total_steps,
        r.status@ == status@,
{
    crate::pipelines::PipelineProgressPayload {
        recording_id: recording_id.to_owned(),
        pipeline_name: pipeline_name.to_owned(),
        step_name: step.name.clone(),
        step_index,
        total_steps,
        status: status.to_owned(),
    }
}

/// A run that has ended.
pub open spec fn ended(status: PipelineStatus) -> bool {
    status == PipelineStatus::Done || status == PipelineStatus::Partial
}

/// The runs of that pipeline that have not ended.
pub open spec fn active(name: Seq<char>) -> spec_fn(PipelineState) -> bool {
    |s: PipelineState| s.name@ == name && !ended(s.status)
}

/// The runs of that pipeline, ended or not.
pub open spec fn runs_of(name: Seq<char>) -> spec_fn(PipelineState) -> bool {
    |s: PipelineState| s.name@ == name
}

fn is_active(s: &PipelineState, name: &str) -> (r: bool)
    ensures
        r == active(name@)(*s),
{
    same(s.name.as_str(), name) && s.status != PipelineStatus::Done && s.status
        != PipelineStatus::Partial
}

fn last_active(states: &Vec<PipelineState>, name: &str) -> (r: Option<usize>)
    ensures
        match r {
            Some(i) => last_index(states@, active(name@), states@.len() as int) == Some(i as int)
                && i < states@.len(),
            None => last_index(states@, active(name@), states@.len() as int) is None,
        },
{
    let mut i: usize = states.len();
    while i > 0
        invariant
            i <= states@.len(),
            last_index(states@, active(name@), states@.len() as int) == last_index(
                states@,
                active(name@),
                i as int,
            ),
        decreases i,
    {
        if is_active(&states[i - 1], name) {
            return Some(i - 1);
        }
        i -= 1;
    }
    None
}

/// The number of the run that is about to be executed: that of the latest run
/// of the pipeline that has not ended, else 0.
pub fn current_run_index(states: &Vec<PipelineState>, pipeline_name: &str) -> (r: usize)
    ensures
        r == match last_index(states@, active(pipeline_name@), states@.len() as int) {
            Some(i) => states@[i].run_index,
            None => 0,
        },
{
    match last_active(states, pipeline_name) {
        Some(i) => states[i].run_index,
        None => 0,
    }
}

/// The place of the first run of a pipeline.
pub fn get_pipeline_status(states: &Vec<PipelineState>, pipeline_name: &str) -> (r: Option<usize>)
    ensures
        match r {
            Some(i) => first_index(states@, runs_of(pipeline_name@), 0) == Some(i as int)
                && i < states@.len(),
            None => first_index(states@, runs_of(pipeline_name@), 0) is None,
        },
{
    let mut i: usize = 0;
    while i < states.len()
        invariant
            i <= states@.len(),
            first_index(states@, runs_of(pipeline_name@), 0) == first_index(
                states@,
                runs_of(pipeline_name@),
                i as int,
            ),
        decreases states@.len() - i,
    {
        if same(states[i].name.as_str(), pipeline_name) {
            return Some(i);
        }
        i += 1;
    }
    None
}

/// `after` is `before` with a new status. The first time it runs it is stamped
/// as started, and when it ends as completed.
pub open spec fn advanced(
    before: PipelineState,
    after: PipelineState,
    status: PipelineStatus,
    current_step: Option<usize>,
    error: Option<Seq<char>>,
    now: Seq<char>,
) -> bool {
    &&& after.id == before.id
    &&& after.name == before.name
    &&& after.run_index == before.run_index
    &&& after.status == status
    &&& after.current_step == current_step
    &&& name_view(after.error) == error
    &&& name_view(after.started_at) == if status == PipelineStatus::Running
        && before.started_at is None {
        Some(now)
    } else {
        name_view(before.started_at)
    }
    &&& name_view(after.completed_at) == if ended(status) {
        Some(now)
    } else {
        name_view(before.completed_at)
    }
}

/// A run that begins with this status.
pub open spec fn started(
    s: PipelineState,
    name: Seq<char>,
    status: PipelineStatus,
    run_index: nat,
    current_step: Option<usize>,
    error: Option<Seq<char>>,
    now: Seq<char>,
) -> bool {
    &&& s.name@ == name
    &&& s.status == status
    &&& s.run_index == run_index
    &&& name_view(s.started_at) == Some(now)
    &&& s.completed_at is None
    &&& s.current_step == current_step
    &&& name_view(s.error) == error
}

/// `after` is `before` with the state of one run brought up to date: the latest
/// run of the pipeline that has not ended, else a new one at the end.
pub open spec fn state_updated(
    before: Seq<PipelineState>,
    after: Seq<PipelineState>,
    name: Seq<char>,
    status: PipelineStatus,
    current_step: Option<usize>,
    error: Option<Seq<char>>,
    now: Seq<char>,
) -> bool {
    match last_index(before, active(name), before.len() as int) {
        Some(i) => {
            &&& after.len() == before.len()
            &&& forall|k: int| 0 <= k < before.len() && k != i ==> #[trigger] after[k] == before[k]
            &&& advanced(before[i], after[i], status, current_step, error, now)
        },
        None => {
            &&& after.len() == before.len() + 1
            &&& after.drop_last() == before
            &&& started(after.last(), name, status, 0, current_step, error, now)
        },
    }
}

/// Brings the state of the run of a pipeline up to date at `now`; a run that is
/// not there yet is added under `fresh_id`.
pub fn update_pipeline_state_at(
    states: &mut Vec<PipelineState>,
    pipeline_name: &str,
    status: PipelineStatus,
    current_step: Option<usize>,
    error: Option<&str>,
    now: &str,
    fresh_id: String,
)
    ensures
        state_updated(
            old(states)@,
            final(states)@,
            pipeline_name@,
            status,
            current_step,
            str_view(error),
            now@,
        ),
        final(states)@.len() > old(states)@.len() ==> final(states)@.last().id == fresh_id,
{
    let ghost before = states@;
    let message = match error {
        Some(e) => Some(e.to_owned()),
        None => None,
    };
    match last_active(states, pipeline_name) {
        Some(i) => {
            let ghost was = states@[i as int];
            let starts_now = status == PipelineStatus::Running && states[i].started_at.is_none();
            let ends_now = status == PipelineStatus::Done || status == PipelineStatus::Partial;
            states[i].status = status;
            states[i].current_step = current_step;
            if starts_now {
                states[i].started_at = Some(now.to_owned());
            }
            if ends_now {
                states[i].completed_at = Some(now.to_owned());
            }
            states[i].error = message;
            assert(advanced(
                was,
                states@[i as int],
                status,
                current_step,
                str_view(error),
                now@,
            ));
        },
        None => {
            states.push(
                PipelineState {
                    id: fresh_id,
                    name: pipeline_name.to_owned(),
                    status,
                    run_index: 0,
                    started_at: Some(now.to_owned()),
                    completed_at: None,
                    current_step,
                    error: message,
                },
            );
            assert(states@.drop_last() =~= before);
        },
    }
}

/// Brings the state of the run of a pipeline up to date, now.
pub fn update_pipeline_state(
    states: &mut Vec<PipelineState>,
    pipeline_name: &str,
    status: PipelineStatus,
    current_step: Option<usize>,
    error: Option<&str>,
)
    ensures
        exists|now: Seq<char>|
            is_stamp(now) && #[trigger] state_updated(
                old(states)@,
                final(states)@,
                pipeline_name@,
                status,
                current_step,
                str_view(error),
                now,
            ),
        final(states)@.len() > old(states)@.len() ==> uuid_shape(final(states)@.last().id@),
{
    let now = now_stamp();
    update_pipeline_state_at(
        states,
        pipeline_name,
        status,
        current_step,
        error,
        now.as_str(),
        new_id(),
    );
}

/// An update leaves every other run as it was, those of the same pipeline
/// included.
pub proof fn law_update_touches_one_run(
    before: Seq<PipelineState>,
    after: Seq<PipelineState>,
    name: Seq<char>,
    status: PipelineStatus,
    current_step: Option<usize>,
    error: Option<Seq<char>>,
    now: Seq<char>,
    k: int,
)
    requires
        state_updated(before, after, name, status, current_step, error, now),
        0 <= k < before.len(),
        before[k].name@ != name || ended(before[k].status),
    ensures
        after[k] == before[k],
{
    lemma_last_index(before, active(name), before.len() as int);
    if last_index(before, active(name), before.len() as int) is None {
        assert(after.drop_last()[k] == before[k]);
    }
}

/// Assigns a pipeline at `now`: a waiting run with the next number is added.
pub fn assign_pipeline_at(
    states: &mut Vec<PipelineState>,
    pipeline_name: &str,
    exists_already: bool,
    now: &str,
    fresh_id: String,
) -> (r: Result<(), String>)
    ensures
        match r {
            Ok(_) => {
                &&& exists_already
                &&& final(states)@.len() == old(states)@.len() + 1
                &&& final(states)@.drop_last() == old(states)@
                &&& final(states)@.last().id == fresh_id
                &&& started(
                    final(states)@.last(),
                    pipeline_name@,
                    PipelineStatus::Waiting,
                    count_of(old(states)@, runs_of(pipeline_name@), old(states)@.len() as int),
                    None,
                    None,
                    now@,
                )
            },
            Err(m) => !exists_already && m@ == not_found(pipeline_name@) && final(states)@ == old(
                states,
            )@,
        },
{
    if !exists_already {
        return Err(joined3("Pipeline '", pipeline_name, "' not found"));
    }
    let ghost before = states@;
    let n: usize = states.len();
    let mut run_index: usize = 0;
    let mut i: usize = 0;
    while i < n
        invariant
            i <= n,
            n == states@.len(),
            states@ == before,
            run_index <= i,
            run_index == count_of(before, runs_of(pipeline_name@), i as int),
        decreases n - i,
    {
        if same(states[i].name.as_str(), pipeline_name) {
            run_index += 1;
        }
        i += 1;
    }
    states.push(
        PipelineState {
            id: fresh_id,
            name: pipeline_name.to_owned(),
            status: PipelineStatus::Waiting,
            run_index,
            started_at: Some(now.to_owned()),
            completed_at: None,
            current_step: None,
            error: None,
        },
    );
    assert(states@.drop_last() =~= before);
    Ok(())
}

/// Assigns a pipeline, now.
pub fn assign_pipeline(
    states: &mut Vec<PipelineState>,
    pipeline_name: &str,
    exists_already: bool,
) -> (r: Result<(), String>)
    ensures
        match r {
            Ok(_) => {
                &&& exists_already
                &&& final(states)@.len() == old(states)@.len() + 1
                &&& final(states)@.drop_last() == old(states)@
                &&& uuid_shape(final(states)@.last().id@)
                &&& exists|now: Seq<char>|
                    is_stamp(now) && #[trigger] started(
                        final(states)@.last(),
                        pipeline_name@,
                        PipelineStatus::Waiting,
                        count_of(
                            old(states)@,
                            runs_of(pipeline_name@),
                            old(states)@.len() as int,
                        ),
                        None,
                        None,
                        now,
                    )
            },
            Err(m) => !exists_already && m@ == not_found(pipeline_name@) && final(states)@ == old(
                states,
            )@,
        },
{
    let now = now_stamp();
    assign_pipeline_at(states, pipeline_name, exists_already, now.as_str(), new_id())
}

/// A run that was just assigned is the one that is executed next.
pub proof fn law_assigned_run_is_current(
    before: Seq<PipelineState>,
    after: Seq<PipelineState>,
    name: Seq<char>,
    now: Seq<char>,
)
    requires
        after.len() == before.len() + 1,
        started(
            after.last(),
            name,
            PipelineStatus::Waiting,
            count_of(before, runs_of(name), before.len() as int),
            None,
            None,
            now,
        ),
    ensures
        last_index(after, active(name), after.len() as int) == Some(before.len() as int),
{
}

/// A run that is set running and then ends keeps its place, its number and its identifier;
/// it has the time at which it first ran and the time at which it ended, and the error that
/// it ended with. Nothing else changes.
pub proof fn law_run_is_stamped(
    before: Seq<PipelineState>,
    between: Seq<PipelineState>,
    after: Seq<PipelineState>,
    name: Seq<char>,
    step: Option<usize>,
    last_step: Option<usize>,
    end: PipelineStatus,
    error: Option<Seq<char>>,
    began: Seq<char>,
    ended_at: Seq<char>,
    i: int,
)
    requires
        0 <= i < before.len(),
        before[i].name@ == name,
        before[i].status == PipelineStatus::Waiting || before[i].status == PipelineStatus::Running,
        forall|k: int|
            i < k < before.len() && (#[trigger] before[k]).name@ == name ==> before[k].status
                == PipelineStatus::Done || before[k].status == PipelineStatus::Partial,
        end == PipelineStatus::Done || end == PipelineStatus::Partial,
        state_updated(before, between, name, PipelineStatus::Running, step, None, began),
        state_updated(between, after, name, end, last_step, error, ended_at),
    ensures
        after.len() == before.len(),
        forall|k: int| 0 <= k < before.len() && k != i ==> #[trigger] after[k] == before[k],
        after[i].id == before[i].id,
        after[i].name == before[i].name,
        after[i].run_index == before[i].run_index,
        after[i].status == end,
        after[i].current_step == last_step,
        name_view(after[i].error) == error,
        before[i].started_at is Some ==> name_view(after[i].started_at) == name_view(
            before[i].started_at,
        ),
        before[i].started_at is None ==> name_view(after[i].started_at) == Some(began),
        name_view(after[i].completed_at) == Some(ended_at),
        between[i].status == PipelineStatus::Running,
        between[i].current_step == step,
        between[i].error is None,
{
    lemma_last_active(before, name, i);
    assert(between[i].name == before[i].name);
    assert forall|k: int| i < k < between.len() && (#[trigger] between[k]).name@
        == name implies between[k].status == PipelineStatus::Done || between[k].status
        == PipelineStatus::Partial by {
        assert(between[k] == before[k]);
    }
    lemma_last_active(between, name, i);
    assert forall|k: int| 0 <= k < before.len() && k != i implies #[trigger] after[k]
        == before[k] by {
        assert(between[k] == before[k]);
    }
}

proof fn lemma_last_active(states: Seq<PipelineState>, name: Seq<char>, i: int)
    requires
        0 <= i < states.len(),
        states[i].name@ == name,
        states[i].status == PipelineStatus::Waiting || states[i].status == PipelineStatus::Running,
        forall|k: int|
            i < k < states.len() && (#[trigger] states[k]).name@ == name ==> states[k].status
                == PipelineStatus::Done || states[k].status == PipelineStatus::Partial,
    ensures
        last_index(states, active(name), states.len() as int) == Some(i),
{
    lemma_last_index(states, active(name), states.len() as int);
    assert(active(name)(states[i]));
    match last_index(states, active(name), states.len() as int) {
        Some(k) => {
            assert(active(name)(states[k]));
            if k < i {
                assert(!active(name)(states[i]));
            }
            if k > i {
                assert(states[k].name@ == name);
            }
        },
        None => {
            assert(!active(name)(states[i]));
        },
    }
}

/// A run of a pipeline that has none under way is added at the end, with the first number.
pub proof fn law_new_run_is_added(
    before: Seq<PipelineState>,
    after: Seq<PipelineState>,
    name: Seq<char>,
    status: PipelineStatus,
    step: Option<usize>,
    error: Option<Seq<char>>,
    now: Seq<char>,
)
    requires
        state_updated(before, after, name, status, step, error, now),
        forall|k: int|
            0 <= k < before.len() && (#[trigger] before[k]).name@ == name ==> before[k].status
                == PipelineStatus::Done || before[k].status == PipelineStatus::Partial,
    ensures
        after.len() == before.len() + 1,
        after.drop_last() == before,
        after.last().name@ == name,
        after.last().status == status,
        after.last().run_index == 0,
        after.last().current_step == step,
        name_view(after.last().error) == error,
        name_view(after.last().started_at) == Some(now),
        after.last().completed_at is None,
{
    lemma_last_index(before, active(name), before.len() as int);
    match last_index(before, active(name), before.len() as int) {
        Some(k) => {
            assert(active(name)(before[k]));
        },
        None => {},
    }
}

/// Runs of a pipeline are numbered: each run that is assigned has a number one greater than
/// the run of that pipeline assigned before it, whatever runs of others stand between.
pub proof fn law_runs_are_numbered(states: Seq<PipelineState>, new: PipelineState, name: Seq<char>)
    ensures
        ({
            let n = states.len() as int;
            let number = |s: Seq<PipelineState>|
                count_of(s, runs_of(name), s.len() as int);
            &&& number(Seq::<PipelineState>::empty()) == 0
            &&& new.name@ == name ==> number(states.push(new)) == number(states) + 1
            &&& new.name@ != name ==> number(states.push(new)) == number(states)
        }),
{
    lemma_count_prefix(states, states.push(new), runs_of(name), states.len() as int);
}

proof fn lemma_count_prefix(
    a: Seq<PipelineState>,
    b: Seq<PipelineState>,
    p: spec_fn(PipelineState) -> bool,
    n: int,
)
    requires
        n <= a.len(),
        n <= b.len(),
        forall|i: int| 0 <= i < n ==> a[i] == b[i],
    ensures
        count_of(a, p, n) == count_of(b, p, n),
    decreases n,
{
    if n > 0 {
        lemma_count_prefix(a, b, p, n - 1);
        assert(a[n - 1] == b[n - 1]);
    }
}

/// The value of a metadata line with this key, without white space around it.
pub open spec fn line_value(line: Seq<char>, key: Seq<char>) -> Option<Seq<char>> {
    match after_prefix(trimmed(line), key) {
        Some(rest) => Some(trimmed(rest)),
        None => None,
    }
}

/// The last status that the first `n` lines give; "pending" if they give none.
pub open spec fn status_in(lines: Seq<Seq<char>>, n: int) -> Seq<char>
    decreases n,
{
    if n <= 0 {
        "pending"@
    } else {
        match line_value(lines[n - 1], "status:"@) {
            Some(v) => v,
            None => status_in(lines, n - 1),
        }
    }
}

/// The last error that the first `n` lines give; `null` is none.
pub open spec fn error_in(lines: Seq<Seq<char>>, n: int) -> Option<Seq<char>>
    decreases n,
{
    if n <= 0 {
        None
    } else {
        match line_value(lines[n - 1], "error:"@) {
            Some(v) if v != "null"@ => Some(stripped(v, "\""@)),
            _ => error_in(lines, n - 1),
        }
    }
}

/// The last stamp under `key` that the first `n` lines give; an empty one and
/// `null` are none.
pub open spec fn stamp_in(lines: Seq<Seq<char>>, key: Seq<char>, n: int) -> Option<Seq<char>>
    decreases n,
{
    if n <= 0 {
        None
    } else {
        match line_value(lines[n - 1], key) {
            Some(v) if stripped(v, "\""@).len() > 0 && stripped(v, "\""@) != "null"@ => Some(
                stripped(v, "\""@),
            ),
            _ => stamp_in(lines, key, n - 1),
        }
    }
}

/// What an artifact tells of its step.
#[derive(Debug)]
pub struct StepReport {
    pub status: String,
    pub error: Option<String>,
    pub duration_ms: Option<i64>,
    pub output: Option<String>,
}

/// What an artifact tells of its step, in mathematical terms.
pub struct StepReportView {
    pub status: Seq<char>,
    pub error: Option<Seq<char>>,
    pub duration_ms: Option<i64>,
    pub output: Option<Seq<char>>,
}

impl View for StepReport {
    type V = StepReportView;

    open spec fn view(&self) -> StepReportView {
        StepReportView {
            status: self.status@,
            error: name_view(self.error),
            duration_ms: self.duration_ms,
            output: name_view(self.output),
        }
    }
}

/// What an artifact tells of its step.
pub open spec fn reported(content: Seq<char>) -> StepReportView {
    match split(content) {
        None => StepReportView {
            status: "pending"@,
            error: None,
            duration_ms: None,
            output: None,
        },
        Some(parts) => {
            let all = lines_of(parts.0);
            let n = all.len() as int;
            let created = stamp_in(all, "created_at:"@, n);
            let completed = stamp_in(all, "completed_at:"@, n);
            StepReportView {
                status: status_in(all, n),
                error: error_in(all, n),
                duration_ms: if created is Some && completed is Some {
                    millis_between(created->0, completed->0)
                } else {
                    None
                },
                output: if trimmed(parts.1).len() == 0 {
                    None
                } else {
                    Some(trimmed(parts.1))
                },
            }
        },
    }
}

fn read_line_value(line: &str, key: &str) -> (r: Option<String>)
    ensures
        match r {
            Some(v) => line_value(line@, key@) == Some(v@),
            None => line_value(line@, key@) is None,
        },
{
    match strip_prefix(trim(line).as_str(), key) {
        Some(rest) => Some(trim(rest.as_str())),
        None => None,
    }
}

fn read_status(all: &Vec<String>) -> (r: String)
    ensures
        r@ == status_in(views(all@), all@.len() as int),
{
    let ghost texts = views(all@);
    let mut i: usize = all.len();
    while i > 0
        invariant
            i <= all@.len(),
            texts == views(all@),
            status_in(texts, all@.len() as int) == status_in(texts, i as int),
        decreases i,
    {
        assert(texts[i as int - 1] == all@[i as int - 1]@);
        match read_line_value(all[i - 1].as_str(), "status:") {
            Some(v) => {
                return v;
            },
            None => {},
        }
        i -= 1;
    }
    "pending".to_owned()
}

fn read_error(all: &Vec<String>) -> (r: Option<String>)
    ensures
        name_view(r) == error_in(views(all@), all@.len() as int),
{
    let ghost texts = views(all@);
    let mut i: usize = all.len();
    while i > 0
        invariant
            i <= all@.len(),
            texts == views(all@),
            error_in(texts, all@.len() as int) == error_in(texts, i as int),
        decreases i,
    {
        assert(texts[i as int - 1] == all@[i as int - 1]@);
        match read_line_value(all[i - 1].as_str(), "error:") {
            Some(v) => {
                if !same(v.as_str(), "null") {
                    return Some(strip(v.as_str(), "\""));
                }
            },
            None => {},
        }
        i -= 1;
    }
    None
}

fn read_stamp(all: &Vec<String>, key: &str) -> (r: Option<String>)
    ensures
        name_view(r) == stamp_in(views(all@), key@, all@.len() as int),
{
    let ghost texts = views(all@);
    let mut i: usize = all.len();
    while i > 0
        invariant
            i <= all@.len(),
            texts == views(all@),
            stamp_in(texts, key@, all@.len() as int) == stamp_in(texts, key@, i as int),
        decreases i,
    {
        assert(texts[i as int - 1] == all@[i as int - 1]@);
        match read_line_value(all[i - 1].as_str(), key) {
            Some(v) => {
                let stamp = strip(v.as_str(), "\"");
                if !stamp.as_str().is_empty() && !same(stamp.as_str(), "null") {
                    return Some(stamp);
                }
            },
            None => {},
        }
        i -= 1;
    }
    None
}

/// What an artifact tells of its step: status, error, duration and output.
/// Without a metadata block the step is pending.
pub fn parse_step_status(content: &str) -> (r: StepReport)
    ensures
        r@ == reported(content@),
{
    match split_frontmatter(content) {
        None => StepReport {
            status: "pending".to_owned(),
            error: None,
            duration_ms: None,
            output: None,
        },
        Some(parts) => {
            let all = lines(parts.0.as_str());
            assert(views(all@).len() == all@.len());
            let duration_ms = match (
                read_stamp(&all, "created_at:"),
                read_stamp(&all, "completed_at:"),
            ) {
                (Some(created), Some(completed)) => elapsed_millis(
                    created.as_str(),
                    completed.as_str(),
                ),
                _ => None,
            };
            let text = trim(parts.1.as_str());
            let output = if text.as_str().is_empty() {
                None
            } else {
                Some(text)
            };
            StepReport { status: read_status(&all), error: read_error(&all), duration_ms, output }
        },
    }
}

/// The state of a step for display.
#[derive(Debug)]
pub struct StepStatus {
    pub name: String,
    /// "pending", "running", "done", "failed" or "skipped".
    pub status: String,
    pub error: Option<String>,
    pub duration_ms: Option<i64>,
    pub output: Option<String>,
}

/// What is shown of a step with this artifact, or without one.
pub open spec fn shown(s: StepStatus, name: Seq<char>, artifact: Option<String>) -> bool {
    &&& s.name@ == name
    &&& match artifact {
        Some(a) => {
            &&& s.status@ == reported(a@).status
            &&& name_view(s.error) == reported(a@).error
            &&& s.duration_ms == reported(a@).duration_ms
            &&& name_view(s.output) == reported(a@).output
        },
        None => s.status@ == "pending"@ && s.error is None && s.duration_ms is None
            && s.output is None,
    }
}

/// The steps of a pipeline, in order, each with what its artifact tells.
pub fn get_step_outputs(steps: &Vec<PipelineStep>, artifacts: &Vec<Option<String>>) -> (r: Vec<
    StepStatus,
>)
    requires
        steps@.len() == artifacts@.len(),
    ensures
        r@.len() == steps@.len(),
        forall|i: int|
            0 <= i < r@.len() ==> shown(#[trigger] r@[i], steps@[i].name@, artifacts@[i]),
{
    let mut out: Vec<StepStatus> = Vec::new();
    let mut i: usize = 0;
    while i < steps.len()
        invariant
            i <= steps@.len(),
            steps@.len() == artifacts@.len(),
            out@.len() == i,
            forall|k: int|
                0 <= k < i ==> shown(#[trigger] out@[k], steps@[k].name@, artifacts@[k]),
        decreases steps@.len() - i,
    {
        let name = steps[i].name.clone();
        match &artifacts[i] {
            Some(a) => {
                let report = parse_step_status(a.as_str());
                assert(report@ == reported(a@));
                out.push(
                    StepStatus {
                        name,
                        status: report.status,
                        error: report.error,
                        duration_ms: report.duration_ms,
                        output: report.output,
                    },
                );
            },
            None => {
                out.push(
                    StepStatus {
                        name,
                        status: "pending".to_owned(),
                        error: None,
                        duration_ms: None,
                        output: None,
                    },
                );
            },
        }
        i += 1;
    }
    out
}

/// The stored runs with this identifier.
pub open spec fn with_id(run_id: Seq<char>) -> spec_fn(Json) -> bool {
    |e: Json| e.member_text("id"@) == Some(run_id)
}

/// A run to be removed: its position, and the pipeline and number that name
/// its directory.
#[derive(Debug)]
pub struct RunToRemove {
    pub index: usize,
    pub name: String,
    pub run_index: u64,
}

/// The place of the run with this identifier in the metadata of a recording, or what is
/// said where there is none.
pub open spec fn run_at(metadata: Json, run_id: Seq<char>) -> Result<int, Seq<char>> {
    match metadata.member("pipelines"@) {
        Some(Json::List(runs)) => match first_index(runs@, with_id(run_id), 0) {
            Some(i) => Ok(i),
            None => Err("Pipeline run '"@ + run_id + "' not found"@),
        },
        _ => Err("No pipelines array in metadata"@),
    }
}

/// The run at a place of the metadata, with the pipeline and the number that it names.
pub open spec fn names_run(run: RunToRemove, metadata: Json, i: int) -> bool {
    match metadata.member("pipelines"@) {
        Some(Json::List(runs)) => {
            &&& run.index == i
            &&& 0 <= i < runs@.len()
            &&& run.name@ == match runs@[i].member_text("name"@) {
                Some(n) => n,
                None => Seq::<char>::empty(),
            }
            &&& run.run_index == match runs@[i].member_u64("run_index"@) {
                Some(n) => n,
                None => 0,
            }
        },
        _ => false,
    }
}

/// `after` is the metadata `before` without the run at place `i`.
pub open spec fn without_run(before: Json, after: Json, i: int) -> bool {
    &&& before.member("pipelines"@) matches Some(Json::List(runs)) && after.member(
        "pipelines"@,
    ) matches Some(Json::List(rest)) && rest@ == runs@.remove(i)
    &&& forall|key: Seq<char>|
        key != "pipelines"@ ==> #[trigger] after.member(key) == before.member(key)
}

/// Takes a run out of the text of the metadata of a recording. Gives the run, and the
/// metadata without it.
pub fn run_removed_in(raw: &str, run_id: &str) -> (r: Result<(RunToRemove, Json), String>)
    ensures
        match json_result(raw@) {
            Ok(metadata) => match run_at(metadata, run_id@) {
                Ok(i) => r is Ok && names_run(r->Ok_0.0, metadata, i) && without_run(
                    metadata,
                    r->Ok_0.1,
                    i,
                ),
                Err(m) => r is Err && r->Err_0@ == m,
            },
            Err(e) => r is Err && r->Err_0@ == "Failed to parse metadata: "@ + e,
        },
{
    let metadata = match parse(raw) {
        Ok(v) => v,
        Err(e) => {
            return Err(joined("Failed to parse metadata: ", e.as_str()));
        },
    };
    let run = match remove_pipeline_run(&metadata, run_id) {
        Ok(run) => run,
        Err(m) => {
            return Err(m);
        },
    };
    let mut entries: Vec<(String, Json)> = match metadata {
        Json::Object(entries) => entries,
        _ => Vec::new(),
    };
    let ghost before = entries@;
    match take_entry(&mut entries, "pipelines") {
        Some(Json::List(mut runs)) => {
            let ghost all = runs@;
            runs.remove(run.index);
            assert(runs@ == all.remove(run.index as int));
            let ghost taken = entries@;
            set_entry(&mut entries, "pipelines", Json::List(runs));
            let rest = Json::Object(entries);
            assert forall|key: Seq<char>| key != "pipelines"@ implies #[trigger] rest.member(key)
                == metadata.member(key) by {
                assert(entry_of(taken, key) == entry_of(before, key));
                assert(entry_of(entries@, key) == entry_of(taken, key));
            }
            Ok((run, rest))
        },
        _ => {
            assert(false);
            Err("No pipelines array in metadata".to_owned())
        },
    }
}

/// Finds a stored run by its identifier.
pub fn remove_pipeline_run(metadata: &Json, run_id: &str) -> (r: Result<RunToRemove, String>)
    ensures
        match run_at(*metadata, run_id@) {
            Ok(i) => r is Ok && names_run(r->Ok_0, *metadata, i),
            Err(m) => r is Err && r->Err_0@ == m,
        },
{
    let runs = match metadata.get("pipelines") {
        Some(Json::List(runs)) => runs,
        _ => {
            return Err("No pipelines array in metadata".to_owned());
        },
    };
    let n: usize = runs.len();
    let mut i: usize = 0;
    while i < n
        invariant
            i <= n,
            n == runs@.len(),
            metadata.member("pipelines"@) == Some(Json::List(*runs)),
            crate::seqs::first_index(runs@, with_id(run_id@), 0) == crate::seqs::first_index(
                runs@,
                with_id(run_id@),
                i as int,
            ),
        decreases n - i,
    {
        let hit = match runs[i].get_text("id") {
            Some(id) => same(id.as_str(), run_id),
            None => false,
        };
        if hit {
            let name = match runs[i].get_text("name") {
                Some(t) => t.clone(),
                None => String::new(),
            };
            let run_index = match runs[i].get_u64("run_index") {
                Some(k) => k,
                None => 0,
            };
            return Ok(RunToRemove { index: i, name, run_index });
        }
        i += 1;
    }
    Err(joined3("Pipeline run '", run_id, "' not found"))
}

/// A stored run without an identifier.
pub open spec fn lacks_id(entry: Json) -> bool {
    match entry.member_text("id"@) {
        Some(id) => id.len() == 0,
        None => true,
    }
}

/// A stored run with the identifier `id`. What is no object stays as it is.
pub fn give_id(entry: Json, id: String) -> (r: Json)
    ensures
        match entry {
            Json::Object(entries) => {
                &&& r is Object
                &&& r.member("id"@) == Some(Json::Text(id))
                &&& forall|key: Seq<char>|
                    key != "id"@ ==> #[trigger] r.member(key) == entry.member(key)
            },
            _ => r == entry,
        },
{
    match entry {
        Json::Object(mut entries) => {
            let ghost before = entries@;
            set_entry(&mut entries, "id", Json::Text(id));
            let r = Json::Object(entries);
            assert forall|key: Seq<char>| key != "id"@ implies #[trigger] r.member(key)
                == entry.member(key) by {
                assert(entry_of(entries@, key) == entry_of(before, key));
            }
            r
        },
        other => other,
    }
}

/// Some stored run is without an identifier.
pub open spec fn some_lack_id(runs: Seq<Json>) -> bool {
    exists|i: int| 0 <= i < runs.len() && lacks_id(#[trigger] runs[i])
}

/// Whether some stored run is without an identifier.
pub fn ids_missing(runs: &Vec<Json>) -> (r: bool)
    ensures
        r == some_lack_id(runs@),
{
    let mut i: usize = 0;
    while i < runs.len()
        invariant
            i <= runs@.len(),
            forall|k: int| 0 <= k < i ==> !lacks_id(#[trigger] runs@[k]),
        decreases runs@.len() - i,
    {
        let missing = match runs[i].get_text("id") {
            Some(id) => id.as_str().is_empty(),
            None => true,
        };
        if missing {
            assert(lacks_id(runs@[i as int]));
            return true;
        }
        i += 1;
    }
    false
}

/// `after` is the stored run `before`, with a fresh identifier where it had none. What is
/// no object stays as it is.
pub open spec fn healed(before: Json, after: Json) -> bool {
    if lacks_id(before) && before is Object {
        &&& after is Object
        &&& after.member_text("id"@) is Some
        &&& uuid_shape(after.member_text("id"@)->0)
        &&& forall|key: Seq<char>|
            key != "id"@ ==> #[trigger] after.member(key) == before.member(key)
    } else {
        after == before
    }
}

/// The stored runs, each with an identifier by which it can be found again.
pub fn heal_runs(runs: Vec<Json>) -> (r: Vec<Json>)
    ensures
        r@.len() == runs@.len(),
        forall|i: int| 0 <= i < r@.len() ==> healed(runs@[i], #[trigger] r@[i]),
{
    let mut rest = runs;
    let mut out: Vec<Json> = Vec::new();
    while rest.len() > 0
        invariant
            out@.len() + rest@.len() == runs@.len(),
            rest@ == runs@.skip(out@.len() as int),
            forall|i: int| 0 <= i < out@.len() ==> healed(runs@[i], #[trigger] out@[i]),
        decreases rest@.len(),
    {
        let ghost at = out@.len() as int;
        let entry = rest.remove(0);
        assert(entry == runs@[at]);
        let missing = match entry.get_text("id") {
            Some(id) => id.as_str().is_empty(),
            None => true,
        };
        if missing {
            let given = give_id(entry, new_id());
            out.push(given);
        } else {
            out.push(entry);
        }
        assert(healed(runs@[at], out@[at]));
        assert(rest@ =~= runs@.skip(at + 1));
    }
    out
}

/// The runs in the text of the metadata of a recording, as they are stored: `None` where
/// the metadata has no such member.
pub fn stored_runs_in(raw: &str) -> (r: Result<Option<Json>, String>)
    ensures
        match json_result(raw@) {
            Ok(metadata) => r is Ok && r->Ok_0 == metadata.member("pipelines"@),
            Err(e) => r is Err && r->Err_0@ == "Failed to parse metadata: "@ + e,
        },
{
    match parse(raw) {
        Ok(Json::Object(mut entries)) => Ok(take_entry(&mut entries, "pipelines")),
        Ok(_) => Ok(None),
        Err(e) => Err(joined("Failed to parse metadata: ", e.as_str())),
    }
}

/// The list of runs in the metadata of a recording, where it has one.
pub open spec fn run_list(metadata: Option<Json>) -> Option<Seq<Json>> {
    match metadata {
        Some(m) => match m.member("pipelines"@) {
            Some(Json::List(runs)) => Some(runs@),
            _ => None,
        },
        None => None,
    }
}

/// Whether some run in the text of the metadata of a recording is without an identifier.
pub fn ids_missing_in(raw: &str) -> (r: bool)
    ensures
        r == match run_list(json_in(Some(raw))) {
            Some(runs) => some_lack_id(runs),
            None => false,
        },
{
    match parse_known(Some(raw)) {
        Some(metadata) => match metadata.get("pipelines") {
            Some(Json::List(runs)) => ids_missing(runs),
            _ => false,
        },
        None => false,
    }
}

/// `after` is the metadata `before`, with every run healed.
pub open spec fn metadata_healed(before: Json, after: Json) -> bool {
    &&& before.member("pipelines"@) matches Some(Json::List(runs)) && after.member(
        "pipelines"@,
    ) matches Some(Json::List(fresh)) && fresh@.len() == runs@.len() && forall|i: int|
        0 <= i < fresh@.len() ==> healed(runs@[i], #[trigger] fresh@[i])
    &&& forall|key: Seq<char>|
        key != "pipelines"@ ==> #[trigger] after.member(key) == before.member(key)
}

/// The metadata of a recording in a text, with every run healed. `None` where the text
/// holds no list of runs.
pub fn heal_runs_in(raw: &str) -> (r: Option<Json>)
    ensures
        r is Some == run_list(json_in(Some(raw))) is Some,
        r is Some ==> metadata_healed(json_in(Some(raw))->0, r->0),
{
    let metadata = match parse_known(Some(raw)) {
        Some(m) => m,
        None => {
            return None;
        },
    };
    let mut entries: Vec<(String, Json)> = match metadata {
        Json::Object(entries) => entries,
        _ => {
            return None;
        },
    };
    let ghost before = entries@;
    match take_entry(&mut entries, "pipelines") {
        Some(Json::List(runs)) => {
            let ghost taken = entries@;
            let fresh = heal_runs(runs);
            set_entry(&mut entries, "pipelines", Json::List(fresh));
            let after = Json::Object(entries);
            assert forall|key: Seq<char>| key != "pipelines"@ implies #[trigger] after.member(key)
                == metadata.member(key) by {
                assert(entry_of(taken, key) == entry_of(before, key));
                assert(entry_of(entries@, key) == entry_of(taken, key));
            }
            Some(after)
        },
        _ => None,
    }
}

/// The metadata of a recording in a text, with these runs in place of its own. Metadata
/// that can have no runs is turned down.
pub fn runs_replaced_in(raw: &str, runs: Json) -> (r: Result<Json, String>)
    ensures
        match json_result(raw@) {
            Ok(metadata) => if metadata is Object || metadata is Null {
                r is Ok && with_member(metadata, r->Ok_0, "pipelines"@, runs)
            } else {
                r is Err && r->Err_0@ == "Metadata is not an object"@
            },
            Err(e) => r is Err && r->Err_0@ == "Failed to parse metadata: "@ + e,
        },
{
    let metadata = match parse(raw) {
        Ok(v) => v,
        Err(e) => {
            return Err(joined("Failed to parse metadata: ", e.as_str()));
        },
    };
    match &metadata {
        Json::Object(_) | Json::Null => {},
        _ => {
            return Err("Metadata is not an object".to_owned());
        },
    }
    Ok(set_member(metadata, "pipelines", runs))
}

/// Once healed, a stored run keeps its identifier: healing it again changes nothing.
pub proof fn law_healing_settles(before: Json, after: Json, again: Json)
    requires
        healed(before, after),
        healed(after, again),
    ensures
        before is Object ==> !lacks_id(after),
        again == after,
{
}

/// A step gets each value of its run under its own placeholder: text without a brace, then
/// a placeholder, then text without a brace give the value between the two texts.
pub proof fn law_step_gets_its_values(
    context: StepContext,
    a: Seq<char>,
    b: Seq<char>,
    result: Seq<char>,
)
    requires
        !a.contains('{'),
        !b.contains('{'),
    ensures
        !context.transcript@.contains('{') ==> context.input_of(a + "{transcript}"@ + b, result)
            == a + context.transcript@ + b,
        !context.app@.contains('{') ==> context.input_of(a + "{app}"@ + b, result) == a
            + context.app@ + b,
        !result.contains('{') ==> context.input_of(a + "{processing_result}"@ + b, result) == a
            + result + b,
        !context.calendar_title@.contains('{') ==> context.input_of(
            a + "{calendar_title}"@ + b,
            result,
        ) == a + context.calendar_title@ + b,
        !context.calendar_attendees@.contains('{') ==> context.input_of(
            a + "{calendar_attendees}"@ + b,
            result,
        ) == a + context.calendar_attendees@ + b,
        !context.date@.contains('{') ==> context.input_of(a + "{date}"@ + b, result) == a
            + context.date@ + b,
        context.input_of(a, result) == a,
{
    let none = Seq::<char>::empty();
    law_placeholders_are_filled(
        a,
        b,
        context.transcript@,
        context.app@,
        result,
        context.calendar_title@,
        context.calendar_attendees@,
        context.date@,
    );
    law_placeholders_are_filled(
        b,
        none,
        context.transcript@,
        context.app@,
        result,
        context.calendar_title@,
        context.calendar_attendees@,
        context.date@,
    );
    law_placeholders_are_filled(
        a,
        none,
        context.transcript@,
        context.app@,
        result,
        context.calendar_title@,
        context.calendar_attendees@,
        context.date@,
    );
    assert(b + none =~= b);
    assert(a + none =~= a);
    lemma_placeholders_filled();
    let nothing = context.input_of(none, result);
    assert(nothing =~= none);
    assert(b + nothing =~= b);
    assert(a + nothing =~= a);
}

/// A metadata line with a key has the value behind the key, without the white space around
/// the line and the value.
pub proof fn law_line_value(
    before: Seq<char>,
    key: Seq<char>,
    gap: Seq<char>,
    value: Seq<char>,
    after: Seq<char>,
)
    requires
        all_space(before),
        all_space(gap),
        all_space(after),
        key.len() > 0,
        !is_space(key[0]),
        value.len() > 0,
        tight(value),
    ensures
        line_value(before + (key + gap + value) + after, key) == Some(value),
{
    let none = Seq::<char>::empty();
    let t = key + gap + value;
    assert(t[0] == key[0]);
    assert(t.last() == value.last());
    law_trimmed_around(before, t, after);
    crate::text::law_after_prefix(key, gap + value, t);
    assert(key + (gap + value) =~= t);
    law_trimmed_around(gap, value, none);
    assert(gap + value + none =~= gap + value);
}

/// Of several lines with one key the last one counts; without any there is no error and no
/// stamp, and the status is that nothing has happened yet.
pub proof fn law_last_line_counts(lines: Seq<Seq<char>>, key: Seq<char>, i: int, n: int, v: Seq<char>)
    requires
        i < n <= lines.len(),
        0 <= n,
        i >= 0 ==> line_value(lines[i], key) == Some(v),
        forall|j: int| 0 <= j < n && i < j ==> line_value(#[trigger] lines[j], key) is None,
        v != "null"@,
    ensures
        key == "status:"@ && i >= 0 ==> status_in(lines, n) == v,
        key == "status:"@ && i < 0 ==> status_in(lines, n) == "pending"@,
        key == "error:"@ && i >= 0 ==> error_in(lines, n) == Some(stripped(v, "\""@)),
        key == "error:"@ && i < 0 ==> error_in(lines, n) is None,
        i >= 0 && stripped(v, "\""@).len() > 0 && stripped(v, "\""@) != "null"@ ==> stamp_in(
            lines,
            key,
            n,
        ) == Some(stripped(v, "\""@)),
        i < 0 ==> stamp_in(lines, key, n) is None,
    decreases n,
{
    if n > 0 && i < n - 1 {
        assert(line_value(lines[n - 1], key) is None);
        law_last_line_counts(lines, key, i, n - 1, v);
    }
}

/// What an artifact says behind its metadata is its output; a document without metadata
/// says nothing of a step.
pub proof fn law_output_is_reported(block: Seq<char>, x: Seq<char>)
    requires
        !occurs(block, "---"@),
        block.len() > 0 ==> block.last() != '-',
    ensures
        all_space(x) ==> reported("---\n"@ + block + "---\n\n"@ + x).output is None,
        !all_space(x) ==> reported("---\n"@ + block + "---\n\n"@ + x).output == Some(trimmed(x)),
        !starts(x, "---"@) ==> reported(x).output is None && reported(x).status == "pending"@
            && reported(x).error is None && reported(x).duration_ms is None,
{
    crate::frontmatter::law_split_of_framed(block, x);
    crate::text::law_space_in_front(seq!['\n', '\n'], x);
    law_blank(x);
}

/// The run of an identifier is the first with it; the others keep their order when it is
/// taken out, and nothing else changes.
pub proof fn law_run_is_removed(
    before: Json,
    after: Json,
    runs: Vec<Json>,
    run_id: Seq<char>,
    i: int,
    k: int,
)
    requires
        before.member("pipelines"@) == Some(Json::List(runs)),
        0 <= i < runs@.len(),
        runs@[i].member_text("id"@) == Some(run_id),
        forall|j: int| 0 <= j < i ==> (#[trigger] runs@[j]).member_text("id"@) != Some(run_id),
        without_run(before, after, i),
        0 <= k < runs@.len() - 1,
    ensures
        run_at(before, run_id) == Ok::<int, Seq<char>>(i),
        ({
            let rest = run_list(Some(after));
            &&& rest is Some && rest->0.len() == runs@.len() - 1
            &&& rest->0[k] == if k < i {
                runs@[k]
            } else {
                runs@[k + 1]
            }
        }),
        forall|key: Seq<char>|
            key != "pipelines"@ ==> #[trigger] after.member(key) == before.member(key),
{
    let p = with_id(run_id);
    crate::seqs::law_first_index(runs@, p, 0);
    assert(p(runs@[i]));
    assert forall|j: int| 0 <= j < i implies !p(#[trigger] runs@[j]) by {}
}

/// Where no run has the identifier, that is said; likewise where there is no list of runs.
pub proof fn law_run_is_not_found(metadata: Json, runs: Vec<Json>, run_id: Seq<char>)
    ensures
        metadata.member("pipelines"@) == Some(Json::List(runs)) && (forall|j: int|
            0 <= j < runs@.len() ==> (#[trigger] runs@[j]).member_text("id"@) != Some(run_id))
            ==> run_at(metadata, run_id) == Err::<int, Seq<char>>(
            "Pipeline run '"@ + run_id + "' not found"@,
        ),
        metadata.member("pipelines"@) is None ==> run_at(metadata, run_id) == Err::<
            int,
            Seq<char>,
        >("No pipelines array in metadata"@),
{
    let p = with_id(run_id);
    crate::seqs::law_first_index(runs@, p, 0);
    if forall|j: int|
        0 <= j < runs@.len() ==> (#[trigger] runs@[j]).member_text("id"@) != Some(run_id) {
        assert forall|j: int| 0 <= j < runs@.len() implies !p(#[trigger] runs@[j]) by {}
    }
}

/// A run without failures is done, and one with a failure is partial; nothing is lost
/// without one.
pub proof fn law_run_outcome(run: PipelineRun, i: int)
    ensures
        run.failure is None ==> run.outcome() == PipelineStatus::Done && !run.lost(i),
        run.failure is Some ==> run.outcome() == PipelineStatus::Partial,
        run.failure is Some && 0 <= i < run.total ==> (run.lost(i) <==> run.failure->0.index <= i),
{
}

/// A recording keeps the artifacts of a run under its own directory; the first run has the
/// plain name of the pipeline, a later one its number behind it.
pub proof fn law_output_dir(
    data_dir: Seq<char>,
    recording_id: Seq<char>,
    pipeline_name: Seq<char>,
    n: nat,
)
    ensures
        output_dir_of(data_dir, recording_id, pipeline_name, 0) == under(
            under(under(data_dir, recording_id), "pipelines"@),
            pipeline_name,
        ),
        n > 0 ==> output_dir_of(data_dir, recording_id, pipeline_name, n) == under(
            under(under(data_dir, recording_id), "pipelines"@),
            pipeline_name + seq!['.', 'r', 'u', 'n', '-'] + decimal_of(n),
        ),
{
    reveal_strlit(".run-");
    assert(".run-"@ =~= seq!['.', 'r', 'u', 'n', '-']);
}

/// An application goes by its name as it is; where that is blank or not known, by that of
/// this one.
pub proof fn law_app_name(name: Seq<char>)
    ensures
        !all_space(name) ==> app_name(Some(name)) == name,
        all_space(name) ==> app_name(Some(name)) == "NBP"@,
        app_name(None) == "NBP"@,
{
    law_blank(name);
}

/// A stored run that has an identifier is left as it is; one without gets one, and keeps
/// everything else.
pub proof fn law_healed(before: Json, after: Json, id: Seq<char>, key: Seq<char>)
    requires
        healed(before, after),
    ensures
        before.member_text("id"@) == Some(id) && id.len() > 0 ==> after == before,
        before is Object && before.member_text("id"@) is None ==> after.member_text("id"@) is Some
            && uuid_shape(after.member_text("id"@)->0),
        key != "id"@ ==> after.member(key) == before.member(key),
{
}

} // verus!
