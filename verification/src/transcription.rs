//! Transcribing recordings: how the engines are called, what they answer, and
//! how a transcript is shown.

use crate::config::{AppSettings, TranscriptionProvider};
use crate::frontmatter::{frame, framed, split, split_frontmatter};
use crate::json::{
    entry_of, field_of, is_record, json_result, parse, record, Fields, Json, JsonNumber,
};
use crate::paths::{path_join, under};
use crate::pipelines::{name_view, str_view};
use crate::records::{
    invalid_type, missing, no_record, not_a_record, not_there, read_text, required_text, wrong_type,
};
use crate::text::{
    after_prefix, all_space, chars_of, decimal, decimal_of, decode, decoded, find_char, is_space,
    join, joined, joined3, joined_by, law_blank, lemma_trimmed_end_parts, lines, lines_of, listed,
    number_in, parse_u32, replace_all, replaced, same, space, strip_prefix, text_of, trim, trim_end,
    trimmed, trimmed_end, until, views,
};
use crate::time::{is_stamp, now_stamp};
use crate::transcript_migration::TranscriptSource;
use vstd::prelude::*;

verus! {

/// One turn of a speaker. The times are in seconds, as the engine wrote them.
#[derive(Debug)]
pub struct TranscriptSegment {
    pub speaker_id: String,
    pub start_time: JsonNumber,
    pub end_time: JsonNumber,
    pub text: String,
}

/// A transcript as it is stored.
#[derive(Debug)]
pub struct TranscriptJson {
    pub source: TranscriptSource,
    pub model: String,
    pub created_at: String,
    pub duration_ms: u64,
    pub language: Option<String>,
    pub text: Option<String>,
    /// Turns of speakers; empty where speakers were not told apart.
    pub segments: Vec<TranscriptSegment>,
    /// Display names of speakers. They show only where the transcript is
    /// rendered: text and segments stay as they are.
    pub speaker_names: Vec<(String, String)>,
}

/// The name under which a speaker is listed first.
pub open spec fn name_in(names: Seq<(String, String)>, id: Seq<char>) -> Option<Seq<char>>
    decreases names.len(),
{
    if names.len() == 0 {
        None
    } else if names[0].0@ == id {
        Some(names[0].1@)
    } else {
        name_in(names.skip(1), id)
    }
}

/// How a speaker is called: by the display name, else by the identifier.
pub open spec fn speaker_called(names: Seq<(String, String)>, id: Seq<char>) -> Seq<char> {
    match name_in(names, id) {
        Some(n) => n,
        None => id,
    }
}

fn find_name(names: &Vec<(String, String)>, id: &str) -> (r: Option<String>)
    ensures
        name_view(r) == name_in(names@, id@),
{
    let mut i: usize = 0;
    assert(names@.skip(0) =~= names@);
    while i < names.len()
        invariant
            i <= names@.len(),
            name_in(names@, id@) == name_in(names@.skip(i as int), id@),
        decreases names@.len() - i,
    {
        assert(names@.skip(i as int)[0] == names@[i as int]);
        assert(names@.skip(i as int).skip(1) =~= names@.skip(i as int + 1));
        if same(names[i].0.as_str(), id) {
            return Some(names[i].1.clone());
        }
        i += 1;
    }
    None
}

/// Every segment is of the same speaker.
pub open spec fn one_speaker(segments: Seq<TranscriptSegment>) -> bool {
    forall|i: int|
        0 <= i < segments.len() ==> (#[trigger] segments[i]).speaker_id@ == segments[0].speaker_id@
}

/// The texts of the first `n` segments, without white space around them; blank
/// ones are left out.
pub open spec fn spoken(segments: Seq<TranscriptSegment>, n: int) -> Seq<Seq<char>>
    decreases n,
{
    if n <= 0 {
        Seq::empty()
    } else if trimmed(segments[n - 1].text@).len() == 0 {
        spoken(segments, n - 1)
    } else {
        spoken(segments, n - 1).push(trimmed(segments[n - 1].text@))
    }
}

/// Who speaks after the first `n` segments.
pub open spec fn speaking(segments: Seq<TranscriptSegment>, n: int) -> Seq<char> {
    if n <= 0 {
        Seq::empty()
    } else {
        segments[n - 1].speaker_id@
    }
}

/// The first `n` segments as a dialogue: a header wherever the speaker changes.
pub open spec fn dialogue(
    segments: Seq<TranscriptSegment>,
    names: Seq<(String, String)>,
    n: int,
) -> Seq<char>
    decreases n,
{
    if n <= 0 {
        Seq::empty()
    } else {
        let before = dialogue(segments, names, n - 1);
        let s = segments[n - 1];
        let headed = if s.speaker_id@ != speaking(segments, n - 1) {
            (if before.len() > 0 {
                before + "\n\n"@
            } else {
                before
            }) + "**"@ + speaker_called(names, s.speaker_id@) + ":**\n"@
        } else {
            before
        };
        if trimmed(s.text@).len() > 0 {
            headed + trimmed(s.text@) + seq!['\n']
        } else {
            headed
        }
    }
}

/// How a transcript is shown.
pub open spec fn shown(t: TranscriptJson) -> Seq<char> {
    let n = t.segments@.len() as int;
    if n == 0 {
        match t.text {
            Some(x) => x@,
            None => Seq::empty(),
        }
    } else if one_speaker(t.segments@) {
        joined_by(spoken(t.segments@, n), " "@)
    } else {
        trimmed_end(dialogue(t.segments@, t.speaker_names@, n))
    }
}

fn is_one_speaker(segments: &Vec<TranscriptSegment>) -> (r: bool)
    requires
        segments@.len() > 0,
    ensures
        r == one_speaker(segments@),
{
    let mut i: usize = 1;
    while i < segments.len()
        invariant
            1 <= i <= segments@.len(),
            forall|k: int|
                0 <= k < i ==> (#[trigger] segments@[k]).speaker_id@ == segments@[0].speaker_id@,
        decreases segments@.len() - i,
    {
        if !same(segments[i].speaker_id.as_str(), segments[0].speaker_id.as_str()) {
            return false;
        }
        i += 1;
    }
    true
}

fn collect_spoken(segments: &Vec<TranscriptSegment>) -> (r: Vec<String>)
    ensures
        views(r@) == spoken(segments@, segments@.len() as int),
{
    let mut out: Vec<String> = Vec::new();
    assert(views(out@) =~= Seq::empty());
    let mut i: usize = 0;
    while i < segments.len()
        invariant
            i <= segments@.len(),
            views(out@) == spoken(segments@, i as int),
        decreases segments@.len() - i,
    {
        let t = trim(segments[i].text.as_str());
        if !t.as_str().is_empty() {
            let ghost before = out@;
            let ghost v = t@;
            out.push(t);
            assert(views(out@) =~= views(before).push(v));
        }
        i += 1;
    }
    out
}

fn write_dialogue(segments: &Vec<TranscriptSegment>, names: &Vec<(String, String)>) -> (r: String)
    ensures
        r@ == dialogue(segments@, names@, segments@.len() as int),
{
    let mut out = String::new();
    let mut current = String::new();
    let mut i: usize = 0;
    while i < segments.len()
        invariant
            i <= segments@.len(),
            out@ == dialogue(segments@, names@, i as int),
            current@ == speaking(segments@, i as int),
        decreases segments@.len() - i,
    {
        let s = &segments[i];
        if !same(s.speaker_id.as_str(), current.as_str()) {
            if !out.as_str().is_empty() {
                out.append("\n\n");
            }
            out.append("**");
            match find_name(names, s.speaker_id.as_str()) {
                Some(n) => {
                    out.append(n.as_str());
                },
                None => {
                    out.append(s.speaker_id.as_str());
                },
            }
            out.append(":**\n");
            current = s.speaker_id.clone();
        }
        let t = trim(s.text.as_str());
        if !t.as_str().is_empty() {
            out.append(t.as_str());
            let ghost before = out@;
            out.push('\n');
            assert(out@ =~= before + seq!['\n']);
        }
        i += 1;
    }
    out
}

/// Shows a transcript. Without segments its text as it is, for one speaker the
/// texts of the segments, for more a dialogue with a header for each turn.
pub fn render_transcript_from_json(t: &TranscriptJson) -> (r: String)
    ensures
        r@ == shown(*t),
{
    if t.segments.len() == 0 {
        return match &t.text {
            Some(x) => x.clone(),
            None => String::new(),
        };
    }
    if is_one_speaker(&t.segments) {
        return join(&collect_spoken(&t.segments), " ");
    }
    trim_end(write_dialogue(&t.segments, &t.speaker_names).as_str())
}

/// A transcript without segments shows its text as it is.
pub proof fn law_plain_transcript_is_verbatim(t: TranscriptJson)
    requires
        t.segments@.len() == 0,
        t.text is Some,
    ensures
        shown(t) == t.text->0@,
{
}

/// A speaker is called by the first display name given to the identifier, and by the
/// identifier where there is none.
pub proof fn law_display_name(names: Seq<(String, String)>, id: Seq<char>)
    ensures
        forall|k: int|
            0 <= k < names.len() && (#[trigger] names[k]).0@ == id && (forall|j: int|
                0 <= j < k ==> (#[trigger] names[j]).0@ != id) ==> speaker_called(names, id)
                == names[k].1@,
        (forall|j: int| 0 <= j < names.len() ==> (#[trigger] names[j]).0@ != id)
            ==> speaker_called(names, id) == id,
    decreases names.len(),
{
    if names.len() > 0 && names[0].0@ != id {
        let rest = names.skip(1);
        law_display_name(rest, id);
        assert forall|k: int|
            0 <= k < names.len() && (#[trigger] names[k]).0@ == id && (forall|j: int|
                0 <= j < k ==> (#[trigger] names[j]).0@ != id) implies speaker_called(names, id)
            == names[k].1@ by {
            assert(rest[k - 1] == names[k]);
            assert forall|j: int| 0 <= j < k - 1 implies (#[trigger] rest[j]).0@ != id by {
                assert(rest[j] == names[j + 1]);
            }
        }
        if forall|j: int| 0 <= j < names.len() ==> (#[trigger] names[j]).0@ != id {
            assert forall|j: int| 0 <= j < rest.len() implies (#[trigger] rest[j]).0@ != id by {
                assert(rest[j] == names[j + 1]);
            }
        }
    }
}

/// A turn begins at segment `i`: another speaker than before.
pub open spec fn turn_begins(segments: Seq<TranscriptSegment>, i: int) -> bool {
    if i == 0 {
        segments[0].speaker_id@.len() > 0
    } else {
        segments[i].speaker_id@ != segments[i - 1].speaker_id@
    }
}

/// A dialogue grows by a header where a turn begins, and by the text of the segment,
/// without the white space around it, on a line of its own where it is not blank.
pub proof fn law_dialogue_by_segment(
    segments: Seq<TranscriptSegment>,
    names: Seq<(String, String)>,
    i: int,
)
    requires
        0 <= i < segments.len(),
    ensures
        ({
            let before = dialogue(segments, names, i);
            let line = if all_space(segments[i].text@) {
                Seq::<char>::empty()
            } else {
                trimmed(segments[i].text@).push('\n')
            };
            dialogue(segments, names, i + 1) == if turn_begins(segments, i) {
                (if before.len() > 0 {
                    before + seq!['\n', '\n']
                } else {
                    before
                }) + seq!['*', '*'] + speaker_called(names, segments[i].speaker_id@) + seq![
                    ':',
                    '*',
                    '*',
                    '\n',
                ] + line
            } else {
                before + line
            }
        }),
{
    reveal_strlit("**");
    reveal_strlit(":**\n");
    reveal_strlit("\n\n");
    assert("**"@ =~= seq!['*', '*']);
    assert(":**\n"@ =~= seq![':', '*', '*', '\n']);
    assert("\n\n"@ =~= seq!['\n', '\n']);
    law_blank(segments[i].text@);
    let t = trimmed(segments[i].text@);
    let d = dialogue(segments, names, i + 1);
    let before = dialogue(segments, names, i);
    if i == 0 {
        if segments[0].speaker_id@.len() == 0 {
            assert(segments[0].speaker_id@ =~= Seq::empty());
        }
    }
    let headed = if turn_begins(segments, i) {
        (if before.len() > 0 {
            before + "\n\n"@
        } else {
            before
        }) + "**"@ + speaker_called(names, segments[i].speaker_id@) + ":**\n"@
    } else {
        before
    };
    if all_space(segments[i].text@) {
        assert(headed + Seq::<char>::empty() =~= headed);
    } else {
        assert(headed + t + seq!['\n'] =~= headed + t.push('\n'));
    }
}

proof fn lemma_dialogue_grows(
    segments: Seq<TranscriptSegment>,
    names: Seq<(String, String)>,
    i: int,
    n: int,
)
    requires
        0 <= i <= n <= segments.len(),
    ensures
        dialogue(segments, names, i).len() <= dialogue(segments, names, n).len(),
        dialogue(segments, names, n).take(dialogue(segments, names, i).len() as int) == dialogue(
            segments,
            names,
            i,
        ),
    decreases n - i,
{
    let d = dialogue(segments, names, i);
    if i < n {
        lemma_dialogue_grows(segments, names, i, n - 1);
        law_dialogue_by_segment(segments, names, n - 1);
        let e = dialogue(segments, names, n - 1);
        let f = dialogue(segments, names, n);
        assert(f.take(e.len() as int) =~= e);
        assert(f.take(d.len() as int) =~= e.take(d.len() as int));
    } else {
        assert(d.take(d.len() as int) =~= d);
    }
}

/// In a dialogue of several speakers every turn is headed by the name of its speaker: the
/// display name where there is one, else the identifier. The turns stand one after the
/// other, an empty line between them.
pub proof fn law_every_turn_is_headed(t: TranscriptJson, i: int)
    requires
        0 <= i < t.segments@.len(),
        exists|k: int|
            0 <= k < t.segments@.len() && (#[trigger] t.segments@[k]).speaker_id@
                != t.segments@[0].speaker_id@,
        turn_begins(t.segments@, i),
    ensures
        ({
            let before = dialogue(t.segments@, t.speaker_names@, i);
            let header = seq!['*', '*'] + speaker_called(
                t.speaker_names@,
                t.segments@[i].speaker_id@,
            ) + seq![':', '*', '*'];
            let front = if before.len() > 0 {
                before + seq!['\n', '\n']
            } else {
                before
            };
            &&& shown(t).len() >= front.len() + header.len()
            &&& shown(t).take((front.len() + header.len()) as int) == front + header
        }),
{
    let segments = t.segments@;
    let names = t.speaker_names@;
    let n = segments.len() as int;
    law_dialogue_by_segment(segments, names, i);
    lemma_dialogue_grows(segments, names, i + 1, n);
    let before = dialogue(segments, names, i);
    let header = seq!['*', '*'] + speaker_called(names, segments[i].speaker_id@) + seq![
        ':',
        '*',
        '*',
    ];
    let front = if before.len() > 0 {
        before + seq!['\n', '\n']
    } else {
        before
    };
    let m = (front.len() + header.len()) as int;
    let d = dialogue(segments, names, n);
    let some = dialogue(segments, names, i + 1);
    assert(some.take(m) =~= front + header);
    assert(d.take(m) =~= some.take(m)) by {
        assert(d.take(some.len() as int) == some);
        assert forall|k: int| 0 <= k < m implies d[k] == some[k] by {
            assert(d.take(some.len() as int)[k] == d[k]);
        }
    }
    let e = lemma_trimmed_end_parts(d);
    assert(d[m - 1] == '*') by {
        assert(d.take(m)[m - 1] == (front + header)[m - 1]);
    }
    if e < m {
        assert(is_space(d.skip(e)[m - 1 - e]));
    }
    assert(d.take(e).take(m) =~= d.take(m));
}

/// A display name stands wherever the identifier would: a dialogue with names is the
/// dialogue of speakers who have these for identifiers. Speakers who follow one another
/// are called differently.
pub proof fn law_names_stand_for_speakers(
    segments: Seq<TranscriptSegment>,
    names: Seq<(String, String)>,
    called: Seq<TranscriptSegment>,
    n: int,
)
    requires
        0 <= n <= segments.len(),
        called.len() == segments.len(),
        forall|i: int|
            0 <= i < segments.len() ==> (#[trigger] called[i]).text@ == segments[i].text@
                && called[i].speaker_id@ == speaker_called(names, segments[i].speaker_id@),
        forall|i: int|
            0 <= i < segments.len() ==> turn_begins(called, i) == #[trigger] turn_begins(
                segments,
                i,
            ),
    ensures
        dialogue(segments, names, n) == dialogue(called, Seq::empty(), n),
    decreases n,
{
    if n > 0 {
        let none = Seq::<(String, String)>::empty();
        law_names_stand_for_speakers(segments, names, called, n - 1);
        law_dialogue_by_segment(segments, names, n - 1);
        law_dialogue_by_segment(called, none, n - 1);
        assert(called[n - 1].text@ == segments[n - 1].text@);
        assert(turn_begins(called, n - 1) == turn_begins(segments, n - 1));
        law_display_name(none, called[n - 1].speaker_id@);
    }
}

/// Of one speaker the texts are shown one after the other, a space between them, and no
/// header: a further segment adds a space and its text, without the white space around it;
/// a blank one adds nothing.
pub proof fn law_one_speaker_is_prose(t: TranscriptJson, less: TranscriptJson)
    requires
        t.segments@.len() > 1,
        less.segments@ == t.segments@.drop_last(),
        forall|i: int|
            0 <= i < t.segments@.len() ==> (#[trigger] t.segments@[i]).speaker_id@
                == t.segments@[0].speaker_id@,
    ensures
        ({
            let last = t.segments@.last().text@;
            &&& all_space(last) ==> shown(t) == shown(less)
            &&& !all_space(last) ==> shown(t) == (if shown(less).len() == 0 {
                trimmed(last)
            } else {
                shown(less) + seq![' '] + trimmed(last)
            })
        }),
{
    reveal_strlit(" ");
    assert(" "@ =~= seq![' ']);
    let n = t.segments@.len() as int;
    let last = t.segments@.last().text@;
    law_blank(last);
    lemma_spoken_prefix(t.segments@, less.segments@, n - 1);
    assert forall|i: int| 0 <= i < less.segments@.len() implies (
    #[trigger] less.segments@[i]).speaker_id@ == less.segments@[0].speaker_id@ by {
        assert(less.segments@[i] == t.segments@[i]);
    }
    let some = spoken(less.segments@, n - 1);
    lemma_spoken_not_blank(less.segments@, n - 1);
    if !all_space(last) {
        let all = some.push(trimmed(last));
        assert(spoken(t.segments@, n) == all);
        assert(all.drop_last() =~= some);
        if some.len() == 0 {
            assert(all.len() == 1);
        } else {
            lemma_joined_not_empty(some, " "@);
        }
    }
}

/// A single segment is shown as its text, without the white space around it.
pub proof fn law_single_segment(t: TranscriptJson)
    requires
        t.segments@.len() == 1,
    ensures
        shown(t) == trimmed(t.segments@[0].text@),
{
    reveal_with_fuel(spoken, 2);
    let x = trimmed(t.segments@[0].text@);
    if x.len() == 0 {
        assert(x =~= Seq::empty());
    } else {
        assert(spoken(t.segments@, 1) =~= seq![x]);
    }
}

proof fn lemma_spoken_prefix(a: Seq<TranscriptSegment>, b: Seq<TranscriptSegment>, n: int)
    requires
        n <= a.len(),
        n <= b.len(),
        forall|i: int| 0 <= i < n ==> a[i] == b[i],
    ensures
        spoken(a, n) == spoken(b, n),
    decreases n,
{
    if n > 0 {
        lemma_spoken_prefix(a, b, n - 1);
        assert(a[n - 1] == b[n - 1]);
    }
}

proof fn lemma_spoken_not_blank(segments: Seq<TranscriptSegment>, n: int)
    ensures
        forall|i: int|
            0 <= i < spoken(segments, n).len() ==> (#[trigger] spoken(segments, n)[i]).len() > 0,
    decreases n,
{
    if n > 0 {
        lemma_spoken_not_blank(segments, n - 1);
        let before = spoken(segments, n - 1);
        assert forall|i: int| 0 <= i < spoken(segments, n).len() implies (
        #[trigger] spoken(segments, n)[i]).len() > 0 by {
            if i < before.len() {
                assert(before[i].len() > 0);
            }
        }
    }
}

proof fn lemma_joined_not_empty(parts: Seq<Seq<char>>, sep: Seq<char>)
    requires
        parts.len() > 0,
        forall|i: int| 0 <= i < parts.len() ==> (#[trigger] parts[i]).len() > 0,
    ensures
        joined_by(parts, sep).len() > 0,
{
    assert(parts[parts.len() - 1].len() > 0);
}

/// `s` with every run of white space made one space, and none around it.
pub open spec fn collapsed(s: Seq<char>) -> Seq<char>
    decreases s.len(),
{
    if s.len() == 0 {
        s
    } else {
        let before = collapsed(s.drop_last());
        if is_space(s.last()) {
            before
        } else if before.len() > 0 && is_space(s[s.len() - 2]) {
            before.push(' ').push(s.last())
        } else {
            before.push(s.last())
        }
    }
}

fn collapse(s: &str) -> (r: String)
    ensures
        r@ == collapsed(s@),
{
    let v = chars_of(s);
    let mut out = String::new();
    let mut i: usize = 0;
    while i < v.len()
        invariant
            i <= v@.len(),
            v@ == s@,
            out@ == collapsed(v@.take(i as int)),
        decreases v@.len() - i,
    {
        let ghost next = v@.take(i as int + 1);
        assert(next.drop_last() =~= v@.take(i as int));
        assert(i > 0 ==> next[next.len() - 2] == v@[i as int - 1]);
        if !space(v[i]) {
            if !out.as_str().is_empty() && space(v[i - 1]) {
                out.push(' ');
            }
            out.push(v[i]);
        }
        i += 1;
    }
    assert(v@.take(i as int) =~= v@);
    out
}

proof fn lemma_collapsed_blank(s: Seq<char>)
    ensures
        collapsed(s).len() == 0 <==> all_space(s),
    decreases s.len(),
{
    if s.len() > 0 {
        let front = s.drop_last();
        lemma_collapsed_blank(front);
        if all_space(s) {
            assert(is_space(s[s.len() - 1]));
            assert forall|i: int| 0 <= i < front.len() implies is_space(#[trigger] front[i]) by {
                assert(front[i] == s[i]);
            }
        } else if is_space(s.last()) {
            let i = choose|i: int| 0 <= i < s.len() && !is_space(#[trigger] s[i]);
            assert(!is_space(front[i]));
        }
    }
}

/// White space in a text is collapsed: of any two parts with white space between them the
/// words are kept, one space between them; white space around a text is dropped; and a
/// word is kept as it is.
pub proof fn law_collapsed(a: Seq<char>, gap: Seq<char>, b: Seq<char>)
    requires
        all_space(gap),
        gap.len() > 0,
    ensures
        !all_space(a) && !all_space(b) ==> collapsed(a + gap + b) == collapsed(a) + seq![' ']
            + collapsed(b),
        collapsed(a + gap) == collapsed(a),
        collapsed(gap + b) == collapsed(b),
        (forall|i: int| 0 <= i < a.len() ==> !is_space(#[trigger] a[i])) ==> collapsed(a) == a,
{
    lemma_collapsed_end(a, gap);
    lemma_collapsed_start(gap, b);
    if !all_space(a) && !all_space(b) {
        lemma_collapsed_between(a, gap, b);
    }
    if forall|i: int| 0 <= i < a.len() ==> !is_space(#[trigger] a[i]) {
        lemma_tidy_collapses_to_itself(a, a.len() as int);
        assert(a.take(a.len() as int) =~= a);
    }
}

proof fn lemma_collapsed_end(a: Seq<char>, gap: Seq<char>)
    requires
        all_space(gap),
    ensures
        collapsed(a + gap) == collapsed(a),
    decreases gap.len(),
{
    if gap.len() > 0 {
        let less = gap.drop_last();
        assert forall|i: int| 0 <= i < less.len() implies is_space(#[trigger] less[i]) by {
            assert(less[i] == gap[i]);
        }
        lemma_collapsed_end(a, less);
        assert((a + gap).drop_last() =~= a + less);
        assert(is_space(gap[gap.len() - 1]));
        assert((a + gap).last() == gap.last());
    } else {
        assert(a + gap =~= a);
    }
}

proof fn lemma_collapsed_start(gap: Seq<char>, b: Seq<char>)
    requires
        all_space(gap),
    ensures
        collapsed(gap + b) == collapsed(b),
    decreases b.len(),
{
    let all = gap + b;
    if b.len() == 0 {
        assert(all =~= gap);
        lemma_collapsed_blank(gap);
        assert(collapsed(gap) =~= Seq::empty());
        assert(collapsed(b) =~= Seq::empty());
    } else {
        let less = b.drop_last();
        lemma_collapsed_start(gap, less);
        assert(all.drop_last() =~= gap + less);
        assert(all.last() == b.last());
        if less.len() > 0 {
            assert(all[all.len() - 2] == b[b.len() - 2]);
        } else {
            assert(collapsed(less).len() == 0);
        }
    }
}

proof fn lemma_collapsed_between(a: Seq<char>, gap: Seq<char>, b: Seq<char>)
    requires
        all_space(gap),
        gap.len() > 0,
        !all_space(a),
        !all_space(b),
    ensures
        collapsed(a + gap + b) == collapsed(a) + seq![' '] + collapsed(b),
    decreases b.len(),
{
    let all = a + gap + b;
    let less = b.drop_last();
    assert(b.len() > 0);
    assert(all.drop_last() =~= a + gap + less);
    assert(all.last() == b.last());
    lemma_collapsed_blank(a);
    if all_space(less) {
        let i = choose|i: int| 0 <= i < b.len() && !is_space(#[trigger] b[i]);
        if i < less.len() {
            assert(is_space(less[i]));
        }
        let c = b.last();
        assert(!is_space(c));
        let more = gap + less;
        assert forall|k: int| 0 <= k < more.len() implies is_space(#[trigger] more[k]) by {
            if k >= gap.len() {
                assert(is_space(less[k - gap.len()]));
            }
        }
        assert(a + gap + less =~= a + more);
        lemma_collapsed_end(a, more);
        assert(is_space(more[more.len() - 1]));
        assert(all[all.len() - 2] == more[more.len() - 1]);
        assert(collapsed(all) == collapsed(a).push(' ').push(c));
        lemma_collapsed_blank(less);
        assert(collapsed(less) =~= Seq::empty());
        assert(collapsed(b) =~= seq![c]);
        assert(collapsed(a).push(' ').push(c) =~= collapsed(a) + seq![' '] + collapsed(b));
    } else {
        lemma_collapsed_between(a, gap, less);
        lemma_collapsed_blank(less);
        assert(all[all.len() - 2] == b[b.len() - 2]);
        assert(collapsed(all) =~= collapsed(a) + seq![' '] + collapsed(b));
    }
}

/// The position of the last space, or the end.
pub open spec fn last_space(s: Seq<char>, n: int) -> int
    decreases n,
{
    if n <= 0 {
        s.len() as int
    } else if s[n - 1] == ' ' {
        n - 1
    } else {
        last_space(s, n - 1)
    }
}

/// A text cut to at most `max` characters, at the end of a word, with an
/// ellipsis where something is missing.
pub open spec fn truncated(text: Seq<char>, max: int) -> Seq<char> {
    let c = collapsed(text);
    if c.len() <= max {
        c
    } else {
        let cut = if max > 0 {
            c.take(max - 1)
        } else {
            Seq::empty()
        };
        trimmed_end(c.take(last_space(cut, cut.len() as int))).push('…')
    }
}

/// A short preview: white space collapsed, cut to `max` characters at the end
/// of a word, with an ellipsis where something is missing.
pub fn truncate_preview(text: &str, max: usize) -> (r: String)
    ensures
        r@ == truncated(text@, max as int),
{
    let clean = collapse(text);
    let v = chars_of(clean.as_str());
    if v.len() <= max {
        return clean;
    }
    let end: usize = if max > 0 {
        max - 1
    } else {
        0
    };
    let ghost cut = v@.take(end as int);
    let mut word_end: usize = end;
    let mut i: usize = end;
    while i > 0 && word_end == end
        invariant
            i <= end,
            end <= v@.len(),
            cut == v@.take(end as int),
            word_end <= end,
            word_end == end ==> last_space(cut, end as int) == last_space(cut, i as int),
            word_end < end ==> last_space(cut, end as int) == word_end,
        decreases i,
    {
        if v[i - 1] == ' ' {
            word_end = i - 1;
        }
        i -= 1;
    }
    assert(v@.subrange(0, word_end as int) =~= v@.take(word_end as int));
    let mut out = trim_end(text_of(&v, 0, word_end).as_str());
    out.push('…');
    out
}

/// A text with single spaces between its words and no other white space.
pub open spec fn tidy(s: Seq<char>) -> bool {
    &&& forall|i: int|
        0 <= i < s.len() && is_space(#[trigger] s[i]) ==> s[i] == ' ' && 0 < i < s.len() - 1
    &&& forall|i: int, j: int|
        #![trigger s[i], s[j]]
        0 <= i && j == i + 1 && j < s.len() && is_space(s[i]) ==> !is_space(s[j])
}

proof fn lemma_collapsed_is_tidy(s: Seq<char>)
    ensures
        tidy(collapsed(s)),
    decreases s.len(),
{
    if s.len() > 0 {
        lemma_collapsed_is_tidy(s.drop_last());
    }
}

proof fn lemma_tidy_collapses_to_itself(s: Seq<char>, n: int)
    requires
        tidy(s),
        0 <= n <= s.len(),
    ensures
        collapsed(s.take(n)) == if n > 0 && is_space(s[n - 1]) {
            s.take(n - 1)
        } else {
            s.take(n)
        },
    decreases n,
{
    if n > 0 {
        lemma_tidy_collapses_to_itself(s, n - 1);
        let t = s.take(n);
        assert(t.drop_last() =~= s.take(n - 1));
        assert(t.last() == s[n - 1]);
        if n > 1 {
            assert(t[n - 2] == s[n - 2]);
            if is_space(s[n - 2]) {
                assert(s.take(n - 2).push(' ').push(s[n - 1]) =~= t);
            }
        }
        assert(s.take(n - 1).push(s[n - 1]) =~= t);
    }
}

proof fn lemma_last_space(s: Seq<char>, n: int)
    requires
        0 <= n <= s.len(),
    ensures
        0 <= last_space(s, n) <= s.len(),
        last_space(s, n) < s.len() ==> s[last_space(s, n)] == ' ',
        last_space(s, n) == s.len() ==> forall|j: int| 0 <= j < n ==> s[j] != ' ',
        forall|j: int| last_space(s, n) < j < n ==> s[j] != ' ',
    decreases n,
{
    if n > 0 {
        lemma_last_space(s, n - 1);
    }
}

/// A preview has no more characters than asked for. A text that fits is kept,
/// with its white space collapsed; of a longer one all words before the limit
/// are kept, an ellipsis behind them, or what fits of a first word that is too long.
/// A preview of a preview is the preview.
pub proof fn law_preview(text: Seq<char>, max: int)
    requires
        max > 0,
    ensures
        truncated(text, max).len() <= max,
        collapsed(text).len() <= max ==> truncated(text, max) == collapsed(text),
        collapsed(text).len() > max ==> exists|k: int|
            {
                &&& 0 <= k < max
                &&& truncated(text, max) == (#[trigger] collapsed(text).take(k)).push('…')
                &&& collapsed(text)[k] == ' ' || forall|j: int|
                    0 <= j < max - 1 ==> collapsed(text)[j] != ' '
                &&& collapsed(text)[k] == ' ' || k == max - 1
                &&& forall|j: int| k < j < max - 1 ==> collapsed(text)[j] != ' '
            },
        truncated(truncated(text, max), max) == truncated(text, max),
{
    let c = collapsed(text);
    let r = truncated(text, max);
    lemma_collapsed_is_tidy(text);
    if c.len() > max {
        let cut = c.take(max - 1);
        let k = last_space(cut, max - 1);
        lemma_last_space(cut, max - 1);
        let p = c.take(k);
        if k > 0 {
            assert(p.last() == c[k - 1]);
            if k < max - 1 {
                assert(cut[k] == c[k]);
                assert(!is_space(c[k - 1]));
            } else {
                assert(cut[k - 1] == c[k - 1]);
            }
        }
        assert(trimmed_end(p) == p);
        assert(r == p.push('…'));
        assert forall|j: int| k == max - 1 && 0 <= j < max - 1 implies c[j] != ' ' by {
            assert(cut[j] == c[j]);
        }
        assert forall|j: int| k < j < max - 1 implies c[j] != ' ' by {
            assert(cut[j] == c[j]);
        }
        assert forall|i: int| 0 <= i < r.len() && is_space(#[trigger] r[i]) implies r[i] == ' '
            && 0 < i < r.len() - 1 by {
            assert(r[i] == c[i]);
        }
        assert(tidy(r));
    }
    lemma_tidy_collapses_to_itself(r, r.len() as int);
    assert(r.take(r.len() as int) =~= r);
}

/// The preview of a transcript, without the marks of speaker headers.
pub open spec fn preview_of(t: TranscriptJson) -> Seq<char> {
    truncated(replaced(shown(t), "**"@, ""@), 200)
}

/// The preview of a transcript for the list of recordings.
pub fn preview_from_transcript(t: &TranscriptJson) -> (r: String)
    ensures
        r@ == preview_of(*t),
{
    proof {
        reveal_strlit("**");
    }
    truncate_preview(
        replace_all(render_transcript_from_json(t).as_str(), "**", "").as_str(),
        200,
    )
}

/// The preview as metadata holds it: nothing where it is empty. `None` where
/// the metadata need not be written.
pub fn preview_update(current: Option<&str>, preview: &str) -> (r: Option<Option<String>>)
    ensures
        r is None == (current is Some && current->0@ == preview@),
        r is Some ==> name_view(r->0) == if preview@.len() == 0 {
            None
        } else {
            Some(preview@)
        },
{
    let unchanged = match current {
        Some(c) => same(c, preview),
        None => false,
    };
    if unchanged {
        None
    } else if preview.is_empty() {
        Some(None)
    } else {
        Some(Some(preview.to_owned()))
    }
}

/// A speaker of a transcript: the identifier and the display name, if any.
#[derive(Debug)]
pub struct SpeakerInfo {
    pub speaker_id: String,
    pub display_name: Option<String>,
}

/// The speakers of the first `n` segments, each once, in the order in which
/// they first speak.
pub open spec fn speakers_of(segments: Seq<TranscriptSegment>, n: int) -> Seq<Seq<char>>
    decreases n,
{
    if n <= 0 {
        Seq::empty()
    } else {
        let before = speakers_of(segments, n - 1);
        let id = segments[n - 1].speaker_id@;
        if before.contains(id) {
            before
        } else {
            before.push(id)
        }
    }
}

/// The identifiers of speakers.
pub open spec fn speaker_ids(speakers: Seq<SpeakerInfo>) -> Seq<Seq<char>> {
    speakers.map_values(|s: SpeakerInfo| s.speaker_id@)
}

fn speaker_listed(speakers: &Vec<SpeakerInfo>, id: &str) -> (r: bool)
    ensures
        r == speaker_ids(speakers@).contains(id@),
{
    let mut i: usize = 0;
    while i < speakers.len()
        invariant
            i <= speakers@.len(),
            forall|k: int| 0 <= k < i ==> (#[trigger] speakers@[k]).speaker_id@ != id@,
        decreases speakers@.len() - i,
    {
        if same(speakers[i].speaker_id.as_str(), id) {
            assert(speaker_ids(speakers@)[i as int] == id@);
            return true;
        }
        i += 1;
    }
    assert(forall|k: int|
        0 <= k < speaker_ids(speakers@).len() ==> speaker_ids(speakers@)[k] != id@);
    false
}

/// The speakers of a transcript, in the order in which they first speak, with
/// their display names. Empty where speakers were not told apart.
pub fn get_speakers(t: &TranscriptJson) -> (r: Vec<SpeakerInfo>)
    ensures
        speaker_ids(r@) == speakers_of(t.segments@, t.segments@.len() as int),
        forall|i: int|
            0 <= i < r@.len() ==> name_view((#[trigger] r@[i]).display_name) == name_in(
                t.speaker_names@,
                r@[i].speaker_id@,
            ),
{
    let mut out: Vec<SpeakerInfo> = Vec::new();
    assert(speaker_ids(out@) =~= Seq::empty());
    let mut i: usize = 0;
    while i < t.segments.len()
        invariant
            i <= t.segments@.len(),
            speaker_ids(out@) == speakers_of(t.segments@, i as int),
            forall|k: int|
                0 <= k < out@.len() ==> name_view((#[trigger] out@[k]).display_name) == name_in(
                    t.speaker_names@,
                    out@[k].speaker_id@,
                ),
        decreases t.segments@.len() - i,
    {
        let id = &t.segments[i].speaker_id;
        if !speaker_listed(&out, id.as_str()) {
            let ghost before = out@;
            out.push(
                SpeakerInfo {
                    speaker_id: id.clone(),
                    display_name: find_name(&t.speaker_names, id.as_str()),
                },
            );
            assert(speaker_ids(out@) =~= speaker_ids(before).push(id@));
        }
        i += 1;
    }
    out
}

/// The speakers of a transcript are those of its segments, each once, in the order in which
/// they first speak.
pub proof fn law_speakers(segments: Seq<TranscriptSegment>, n: int)
    requires
        0 <= n <= segments.len(),
    ensures
        forall|id: Seq<char>|
            #[trigger] speakers_of(segments, n).contains(id) <==> exists|i: int|
                0 <= i < n && (#[trigger] segments[i]).speaker_id@ == id,
        forall|i: int, j: int|
            0 <= i < j < speakers_of(segments, n).len() ==> speakers_of(segments, n)[i]
                != speakers_of(segments, n)[j],
        forall|m: int|
            0 <= m <= n ==> (#[trigger] speakers_of(segments, m)).len() <= speakers_of(
                segments,
                n,
            ).len() && speakers_of(segments, n).take(speakers_of(segments, m).len() as int)
                == speakers_of(segments, m),
    decreases n,
{
    let all = speakers_of(segments, n);
    if n > 0 {
        law_speakers(segments, n - 1);
        let before = speakers_of(segments, n - 1);
        let id = segments[n - 1].speaker_id@;
        assert forall|x: Seq<char>| #[trigger] all.contains(x) <==> exists|i: int|
            0 <= i < n && (#[trigger] segments[i]).speaker_id@ == x by {
            if all.contains(x) {
                if before.contains(x) {
                    let i = choose|i: int|
                        0 <= i < n - 1 && (#[trigger] segments[i]).speaker_id@ == x;
                    assert(segments[i].speaker_id@ == x);
                } else {
                    let k = choose|k: int| 0 <= k < all.len() && all[k] == x;
                    if k < before.len() {
                        assert(before[k] == x);
                    }
                    assert(segments[n - 1].speaker_id@ == x);
                }
            }
            if exists|i: int| 0 <= i < n && (#[trigger] segments[i]).speaker_id@ == x {
                if x == id {
                    if !before.contains(x) {
                        assert(all[before.len() as int] == x);
                    }
                } else {
                    assert(before.contains(x));
                    let k = choose|k: int| 0 <= k < before.len() && before[k] == x;
                    assert(all[k] == x);
                }
            }
        }
        assert forall|i: int, j: int| 0 <= i < j < all.len() implies all[i] != all[j] by {
            if j == before.len() {
                assert(before.contains(before[i]));
            }
        }
        assert forall|m: int| 0 <= m <= n implies (#[trigger] speakers_of(segments, m)).len()
            <= all.len() && all.take(speakers_of(segments, m).len() as int) == speakers_of(
            segments,
            m,
        ) by {
            if m < n {
                let some = speakers_of(segments, m);
                assert(before.take(some.len() as int) == some);
                assert(all.take(some.len() as int) =~= before.take(some.len() as int));
            } else {
                assert(all.take(all.len() as int) =~= all);
            }
        }
    } else {
        assert(all.take(0) =~= all);
    }
}

/// The segment is of that speaker.
pub open spec fn speaks(segments: Seq<TranscriptSegment>, id: Seq<char>) -> bool {
    exists|i: int| 0 <= i < segments.len() && (#[trigger] segments[i]).speaker_id@ == id
}

/// The name that a rename gives; a blank one, or the identifier itself, is none.
pub open spec fn chosen_name(id: Seq<char>, display_name: Seq<char>) -> Option<Seq<char>> {
    if trimmed(display_name).len() == 0 || trimmed(display_name) == id {
        None
    } else {
        Some(trimmed(display_name))
    }
}

/// No speaker is listed twice.
pub open spec fn names_distinct(names: Seq<(String, String)>) -> bool {
    forall|i: int, j: int|
        0 <= i < j < names.len() ==> (#[trigger] names[i]).0@ != (#[trigger] names[j]).0@
}

proof fn lemma_name_in_absent(names: Seq<(String, String)>, id: Seq<char>)
    requires
        forall|i: int| 0 <= i < names.len() ==> (#[trigger] names[i]).0@ != id,
    ensures
        name_in(names, id) is None,
    decreases names.len(),
{
    if names.len() > 0 {
        assert(names[0].0@ != id);
        assert forall|i: int| 0 <= i < names.skip(1).len() implies (#[trigger] names.skip(1)[i]).0@
            != id by {
            assert(names.skip(1)[i] == names[i + 1]);
        }
        lemma_name_in_absent(names.skip(1), id);
    }
}

proof fn lemma_name_in_removed(names: Seq<(String, String)>, i: int, id: Seq<char>)
    requires
        0 <= i < names.len(),
        names[i].0@ != id,
    ensures
        name_in(names.remove(i), id) == name_in(names, id),
    decreases names.len(),
{
    if i == 0 {
        assert(names.remove(0) =~= names.skip(1));
    } else {
        assert(names.remove(i)[0] == names[0]);
        assert(names.remove(i).skip(1) =~= names.skip(1).remove(i - 1));
        lemma_name_in_removed(names.skip(1), i - 1, id);
    }
}

fn remove_name(names: &mut Vec<(String, String)>, id: &str)
    requires
        names_distinct(old(names)@),
    ensures
        names_distinct(final(names)@),
        name_in(final(names)@, id@) is None,
        forall|i: int| 0 <= i < final(names)@.len() ==> (#[trigger] final(names)@[i]).0@ != id@,
        forall|other: Seq<char>|
            other != id@ ==> #[trigger] name_in(final(names)@, other) == name_in(
                old(names)@,
                other,
            ),
{
    let ghost before = names@;
    let mut i: usize = 0;
    while i < names.len()
        invariant
            i <= names@.len(),
            names@ == before,
            before == old(names)@,
            names_distinct(before),
            forall|k: int| 0 <= k < i ==> (#[trigger] names@[k]).0@ != id@,
        decreases names@.len() - i,
    {
        if same(names[i].0.as_str(), id) {
            let _gone = names.remove(i);
            proof {
                assert forall|k: int| 0 <= k < names@.len() implies (#[trigger] names@[k]).0@
                    != id@ by {
                    if k < i {
                        assert(names@[k] == before[k]);
                    } else {
                        assert(names@[k] == before[k + 1]);
                        assert(before[i as int].0@ != before[k + 1].0@);
                    }
                }
                lemma_name_in_absent(names@, id@);
                assert forall|a: int, b: int| 0 <= a < b < names@.len() implies (
                #[trigger] names@[a]).0@ != (#[trigger] names@[b]).0@ by {
                    let x = if a < i { a } else { a + 1 };
                    let y = if b < i { b } else { b + 1 };
                    assert(names@[a] == before[x]);
                    assert(names@[b] == before[y]);
                }
                assert forall|other: Seq<char>| other != id@ implies #[trigger] name_in(
                    names@,
                    other,
                ) == name_in(before, other) by {
                    lemma_name_in_removed(before, i as int, other);
                }
            }
            return;
        }
        i += 1;
    }
    proof {
        lemma_name_in_absent(names@, id@);
    }
}

/// `after` is `before` with one speaker renamed.
pub open spec fn renamed(
    before: Seq<(String, String)>,
    after: Seq<(String, String)>,
    id: Seq<char>,
    display_name: Seq<char>,
) -> bool {
    &&& name_in(after, id) == chosen_name(id, display_name)
    &&& forall|other: Seq<char>|
        other != id ==> #[trigger] name_in(after, other) == name_in(before, other)
}

/// Two transcripts differ at most in the display names of speakers.
pub open spec fn same_record(a: TranscriptJson, b: TranscriptJson) -> bool {
    a == (TranscriptJson { speaker_names: a.speaker_names, ..b })
}

/// Renames a speaker for display. Text and segments stay as they are; a blank
/// name, or the identifier itself, takes the rename back.
pub fn rename_speaker(t: &mut TranscriptJson, speaker_id: &str, display_name: &str) -> (r: Result<
    (),
    String,
>)
    requires
        names_distinct(old(t).speaker_names@),
    ensures
        names_distinct(final(t).speaker_names@),
        same_record(*final(t), *old(t)),
        r is Ok == speaks(old(t).segments@, speaker_id@),
        match r {
            Ok(_) => renamed(
                old(t).speaker_names@,
                final(t).speaker_names@,
                speaker_id@,
                display_name@,
            ),
            Err(m) => *final(t) == *old(t) && m@ == "Speaker '"@ + speaker_id@
                + "' not found in this transcript"@,
        },
{
    let mut found = false;
    let mut i: usize = 0;
    while i < t.segments.len()
        invariant
            i <= t.segments@.len(),
            *t == *old(t),
            found == (exists|k: int|
                0 <= k < i && (#[trigger] t.segments@[k]).speaker_id@ == speaker_id@),
        decreases t.segments@.len() - i,
    {
        if same(t.segments[i].speaker_id.as_str(), speaker_id) {
            found = true;
        }
        i += 1;
    }
    if !found {
        return Err(joined3("Speaker '", speaker_id, "' not found in this transcript"));
    }
    let name = trim(display_name);
    let cleared = name.as_str().is_empty() || same(name.as_str(), speaker_id);
    remove_name(&mut t.speaker_names, speaker_id);
    if !cleared {
        let ghost rest = t.speaker_names@;
        let ghost v = name@;
        t.speaker_names.insert(0, (speaker_id.to_owned(), name));
        proof {
            assert(t.speaker_names@.skip(1) =~= rest);
            assert(t.speaker_names@[0].0@ == speaker_id@);
            assert forall|other: Seq<char>| other != speaker_id@ implies #[trigger] name_in(
                t.speaker_names@,
                other,
            ) == name_in(old(t).speaker_names@, other) by {
                assert(name_in(t.speaker_names@, other) == name_in(rest, other));
            }
            assert forall|a: int, b: int| 0 <= a < b < t.speaker_names@.len() implies (
            #[trigger] t.speaker_names@[a]).0@ != (#[trigger] t.speaker_names@[b]).0@ by {
                assert(t.speaker_names@[b] == rest[b - 1]);
                if a > 0 {
                    assert(t.speaker_names@[a] == rest[a - 1]);
                }
            }
        }
    }
    Ok(())
}

/// A rename that is taken back leaves every speaker called as before.
pub proof fn law_rename_is_reversible(
    names: Seq<(String, String)>,
    renamed_names: Seq<(String, String)>,
    restored: Seq<(String, String)>,
    id: Seq<char>,
    display_name: Seq<char>,
    blank: Seq<char>,
    speaker: Seq<char>,
)
    requires
        name_in(names, id) is None,
        trimmed(blank).len() == 0,
        renamed(names, renamed_names, id, display_name),
        renamed(renamed_names, restored, id, blank),
    ensures
        speaker_called(restored, speaker) == speaker_called(names, speaker),
{
    assert(name_in(renamed_names, speaker) == name_in(renamed_names, speaker));
    assert(name_in(restored, speaker) == name_in(names, speaker));
}

/// The recordings that are being transcribed.
#[derive(Debug)]
pub struct TranscriptionState {
    pub active_ids: Vec<String>,
}

impl TranscriptionState {
    /// Nothing is being transcribed.
    pub fn new() -> (r: Self)
        ensures
            r.active_ids@.len() == 0,
    {
        TranscriptionState { active_ids: Vec::new() }
    }

    /// The recordings that are being transcribed.
    pub open spec fn running(self) -> Seq<Seq<char>> {
        views(self.active_ids@)
    }

    /// No recording is listed twice.
    pub open spec fn wf(self) -> bool {
        self.running().no_duplicates()
    }

    /// Whether a recording is being transcribed.
    pub fn is_transcribing(&self, recording_id: &str) -> (r: bool)
        ensures
            r == self.running().contains(recording_id@),
    {
        listed(&self.active_ids, recording_id)
    }

    /// Begins to transcribe a recording, unless that goes on already.
    pub fn begin(&mut self, recording_id: &str) -> (started: bool)
        requires
            old(self).wf(),
        ensures
            final(self).wf(),
            started == !old(self).running().contains(recording_id@),
            final(self).running() == if started {
                old(self).running().push(recording_id@)
            } else {
                old(self).running()
            },
    {
        if listed(&self.active_ids, recording_id) {
            return false;
        }
        let ghost before = self.active_ids@;
        self.active_ids.push(recording_id.to_owned());
        assert(views(self.active_ids@) =~= views(before).push(recording_id@));
        true
    }

    /// The recording is transcribed, or failed to be.
    pub fn end(&mut self, recording_id: &str)
        requires
            old(self).wf(),
        ensures
            final(self).wf(),
            !final(self).running().contains(recording_id@),
            forall|other: Seq<char>|
                other != recording_id@ ==> (#[trigger] final(self).running().contains(other)
                    <==> old(self).running().contains(other)),
    {
        let ghost before = self.active_ids@;
        let ghost all = views(before);
        let mut i: usize = 0;
        while i < self.active_ids.len()
            invariant
                i <= self.active_ids@.len(),
                self.active_ids@ == before,
                all == views(before),
                all == old(self).running(),
                all.no_duplicates(),
                forall|k: int| 0 <= k < i ==> #[trigger] all[k] != recording_id@,
            decreases self.active_ids@.len() - i,
        {
            assert(all[i as int] == before[i as int]@);
            if same(self.active_ids[i].as_str(), recording_id) {
                let _gone = self.active_ids.remove(i);
                let ghost rest = views(self.active_ids@);
                assert(rest =~= all.remove(i as int));
                assert forall|other: Seq<char>| other != recording_id@ implies (
                #[trigger] rest.contains(other) <==> all.contains(other)) by {
                    if all.contains(other) {
                        let k = choose|k: int| 0 <= k < all.len() && all[k] == other;
                        if k < i {
                            assert(rest[k] == other);
                        } else {
                            assert(rest[k - 1] == other);
                        }
                    }
                    if rest.contains(other) {
                        let k = choose|k: int| 0 <= k < rest.len() && rest[k] == other;
                        if k < i {
                            assert(all[k] == other);
                        } else {
                            assert(all[k + 1] == other);
                        }
                    }
                }
                assert(!rest.contains(recording_id@));
                return;
            }
            i += 1;
        }
        assert(!all.contains(recording_id@));
    }
}

/// The arguments that choose the engine of the speech sidecar.
pub open spec fn engine_args(settings: AppSettings, vocab_path: Option<Seq<char>>) -> Seq<
    Seq<char>,
> {
    let t = settings.transcription;
    if t.provider == TranscriptionProvider::Qwen3 {
        seq!["--engine"@, "qwen3"@, "--variant"@, t.qwen3_variant@]
    } else if t.translit_lang@ != "off"@ && vocab_path is Some {
        seq![
            "--translit-all"@,
            "--translit-threshold"@,
            t.translit_threshold@,
            "--translit-min-len"@,
            decimal_of(t.translit_min_len as nat),
            "--vocab"@,
            vocab_path->0,
        ]
    } else {
        Seq::empty()
    }
}

/// The arguments that choose the engine of the speech sidecar and the recovery
/// of mixed languages. `vocab_path` is the word list, where there is one.
pub fn fluidaudio_engine_args(settings: &AppSettings, vocab_path: Option<&str>) -> (r: Vec<String>)
    ensures
        views(r@) == engine_args(*settings, crate::pipelines::str_view(vocab_path)),
{
    let t = &settings.transcription;
    let mut out: Vec<String> = Vec::new();
    if t.provider == TranscriptionProvider::Qwen3 {
        out.push("--engine".to_owned());
        out.push("qwen3".to_owned());
        out.push("--variant".to_owned());
        out.push(t.qwen3_variant.clone());
        assert(views(out@) =~= engine_args(*settings, crate::pipelines::str_view(vocab_path)));
        return out;
    }
    if !same(t.translit_lang.as_str(), "off") {
        match vocab_path {
            Some(path) => {
                out.push("--translit-all".to_owned());
                out.push("--translit-threshold".to_owned());
                out.push(t.translit_threshold.clone());
                out.push("--translit-min-len".to_owned());
                out.push(decimal(t.translit_min_len as u64));
                out.push("--vocab".to_owned());
                out.push(path.to_owned());
            },
            None => {},
        }
    }
    assert(views(out@) =~= engine_args(*settings, crate::pipelines::str_view(vocab_path)));
    out
}

/// What names the engine that a provider stands for.
pub open spec fn engine_label(provider: TranscriptionProvider) -> Seq<char> {
    if provider == TranscriptionProvider::AppleSpeech {
        "Apple Speech"@
    } else {
        "FluidAudio"@
    }
}

/// The source that transcripts of a provider name.
pub open spec fn source_for(provider: TranscriptionProvider) -> TranscriptSource {
    if provider == TranscriptionProvider::AppleSpeech {
        TranscriptSource::Apple
    } else {
        TranscriptSource::Fluidaudio
    }
}

/// The arguments of the sidecar that transcribes the file `wav`.
pub open spec fn sidecar_args(
    settings: AppSettings,
    wav: Seq<char>,
    vocab_path: Option<Seq<char>>,
) -> Seq<Seq<char>> {
    let t = settings.transcription;
    if t.provider == TranscriptionProvider::AppleSpeech {
        seq![wav, "--lang"@, t.apple_locale@]
    } else {
        seq![wav] + (if t.diarize {
            Seq::empty()
        } else {
            seq!["--no-diarize"@]
        }) + engine_args(settings, vocab_path)
    }
}

/// How a recording is transcribed: what is converted to what, which sidecar is
/// called with which arguments, and what its transcript names as source.
#[derive(Debug)]
pub struct TranscriptionPlan {
    pub audio_path: String,
    pub wav_path: String,
    pub program: String,
    pub args: Vec<String>,
    pub source: TranscriptSource,
    pub label: String,
}

/// The audio of a recording: the mix, else the microphone.
pub open spec fn audio_file(dir: Seq<char>, mix_exists: bool, mic_exists: bool) -> Option<
    Seq<char>,
> {
    if mix_exists {
        Some(under(dir, "audio_mix.ogg"@))
    } else if mic_exists {
        Some(under(dir, "raw_mic.ogg"@))
    } else {
        None
    }
}

/// The audio of a recording: the mix, else the microphone.
pub fn find_audio(dir: &str, mix_exists: bool, mic_exists: bool) -> (r: Option<String>)
    ensures
        name_view(r) == audio_file(dir@, mix_exists, mic_exists),
{
    if mix_exists {
        Some(path_join(dir, "audio_mix.ogg"))
    } else if mic_exists {
        Some(path_join(dir, "raw_mic.ogg"))
    } else {
        None
    }
}

/// Plans the transcription of the recording in `dir`.
pub fn plan_transcription(
    settings: &AppSettings,
    dir: &str,
    mix_exists: bool,
    mic_exists: bool,
    vocab_path: Option<&str>,
) -> (r: Result<TranscriptionPlan, String>)
    ensures
        match r {
            Ok(p) => {
                &&& settings.transcription.enabled
                &&& audio_file(dir@, mix_exists, mic_exists) == Some(p.audio_path@)
                &&& p.wav_path@ == under(dir@, "temp_transcription.wav"@)
                &&& p.program@ == if settings.transcription.provider
                    == TranscriptionProvider::AppleSpeech {
                    "apple-speech-sidecar"@
                } else {
                    "fluidaudio-sidecar"@
                }
                &&& views(p.args@) == sidecar_args(*settings, p.wav_path@, str_view(vocab_path))
                &&& p.source == source_for(settings.transcription.provider)
                &&& p.label@ == engine_label(settings.transcription.provider)
            },
            Err(m) => {
                ||| !settings.transcription.enabled && m@
                    == "Transcription is disabled in settings"@
                ||| settings.transcription.enabled && !mix_exists && !mic_exists && m@
                    == "Audio file not found"@
            },
        },
        r is Ok == (settings.transcription.enabled && (mix_exists || mic_exists)),
{
    let t = &settings.transcription;
    if !t.enabled {
        return Err("Transcription is disabled in settings".to_owned());
    }
    let audio_path = match find_audio(dir, mix_exists, mic_exists) {
        Some(p) => p,
        None => {
            return Err("Audio file not found".to_owned());
        },
    };
    let wav_path = path_join(dir, "temp_transcription.wav");
    let mut args: Vec<String> = Vec::new();
    args.push(wav_path.clone());
    if t.provider == TranscriptionProvider::AppleSpeech {
        args.push("--lang".to_owned());
        args.push(t.apple_locale.clone());
        assert(views(args@) =~= sidecar_args(*settings, wav_path@, str_view(vocab_path)));
        Ok(
            TranscriptionPlan {
                audio_path,
                wav_path,
                program: "apple-speech-sidecar".to_owned(),
                args,
                source: TranscriptSource::Apple,
                label: "Apple Speech".to_owned(),
            },
        )
    } else {
        if !t.diarize {
            args.push("--no-diarize".to_owned());
        }
        let ghost head = args@;
        let mut engine = fluidaudio_engine_args(settings, vocab_path);
        let ghost tail = engine@;
        args.append(&mut engine);
        assert(args@ =~= head + tail);
        assert(views(args@) =~= views(head) + views(tail));
        assert(views(args@) =~= sidecar_args(*settings, wav_path@, str_view(vocab_path)));
        Ok(
            TranscriptionPlan {
                audio_path,
                wav_path,
                program: "fluidaudio-sidecar".to_owned(),
                args,
                source: TranscriptSource::Fluidaudio,
                label: "FluidAudio".to_owned(),
            },
        )
    }
}

/// Progress that a sidecar reports: the stage and how far it is.
#[derive(Debug)]
pub struct TranscriptionProgress {
    pub stage: String,
    pub percent: u32,
}

/// The progress that a line reports: `PROGRESS:stage:percent`.
pub open spec fn progress_line(line: Seq<char>) -> Option<(Seq<char>, nat)> {
    match after_prefix(line, "PROGRESS:"@) {
        Some(rest) => {
            let n = until(rest, ':');
            if 0 <= n < rest.len() {
                match number_in(rest.skip(n + 1), u32::MAX as nat) {
                    Some(p) => Some((rest.take(n), p)),
                    None => None,
                }
            } else {
                None
            }
        },
        None => None,
    }
}

/// The progress that the first `n` lines report.
pub open spec fn progress_in(lines: Seq<Seq<char>>, n: int) -> Seq<(Seq<char>, nat)>
    decreases n,
{
    if n <= 0 {
        Seq::empty()
    } else {
        match progress_line(lines[n - 1]) {
            Some(p) => progress_in(lines, n - 1).push(p),
            None => progress_in(lines, n - 1),
        }
    }
}

/// Stages and percentages.
pub open spec fn progress_view(p: Seq<TranscriptionProgress>) -> Seq<(Seq<char>, nat)> {
    p.map_values(|x: TranscriptionProgress| (x.stage@, x.percent as nat))
}

/// The progress that a line reports, if it does.
pub fn parse_progress_line(line: &str) -> (r: Option<TranscriptionProgress>)
    ensures
        match r {
            Some(p) => progress_line(line@) == Some((p.stage@, p.percent as nat)),
            None => progress_line(line@) is None,
        },
{
    let rest = match strip_prefix(line, "PROGRESS:") {
        Some(t) => chars_of(t.as_str()),
        None => {
            return None;
        },
    };
    assert(rest@.skip(0) =~= rest@);
    let n: usize = rest.len();
    let colon: usize = find_char(&rest, ':', 0);
    if colon == n {
        return None;
    }
    let stage = text_of(&rest, 0, colon);
    let number = text_of(&rest, colon + 1, n);
    assert(stage@ =~= rest@.take(colon as int));
    assert(number@ =~= rest@.skip(colon as int + 1));
    match parse_u32(number.as_str()) {
        Some(percent) => Some(TranscriptionProgress { stage, percent }),
        None => None,
    }
}

/// The progress that a chunk of diagnostics reports.
pub fn parse_progress(chunk: &str) -> (r: Vec<TranscriptionProgress>)
    ensures
        progress_view(r@) == progress_in(lines_of(chunk@), lines_of(chunk@).len() as int),
{
    let all = lines(chunk);
    let ghost texts = views(all@);
    let mut out: Vec<TranscriptionProgress> = Vec::new();
    assert(progress_view(out@) =~= Seq::empty());
    let mut i: usize = 0;
    while i < all.len()
        invariant
            i <= all@.len(),
            texts == views(all@),
            progress_view(out@) == progress_in(texts, i as int),
        decreases all@.len() - i,
    {
        assert(texts[i as int] == all@[i as int]@);
        match parse_progress_line(all[i].as_str()) {
            Some(p) => {
                let ghost before = out@;
                let ghost v = (p.stage@, p.percent as nat);
                out.push(p);
                assert(progress_view(out@) =~= progress_view(before).push(v));
            },
            None => {},
        }
        i += 1;
    }
    assert(texts.len() == all@.len());
    out
}

/// A sidecar at work: what it has written so far, and how it ended.
#[derive(Debug)]
pub struct SidecarRun {
    pub label: String,
    pub stdout: Vec<u8>,
    pub stderr: String,
    pub exit_code: Option<i32>,
}

impl SidecarRun {
    /// A sidecar that has just been started.
    pub fn new(label: String) -> (r: Self)
        ensures
            r.label == label,
            r.stdout@.len() == 0,
            r.stderr@.len() == 0,
            r.exit_code is None,
    {
        SidecarRun { label, stdout: Vec::new(), stderr: String::new(), exit_code: None }
    }

    /// It wrote a chunk of its answer.
    pub fn on_stdout(&mut self, data: &Vec<u8>)
        ensures
            final(self).stdout@ == old(self).stdout@ + data@,
            final(self).stderr == old(self).stderr,
            final(self).exit_code == old(self).exit_code,
            final(self).label == old(self).label,
    {
        let ghost before = self.stdout@;
        self.stdout.extend_from_slice(data.as_slice());
        assert(self.stdout@ =~= before + data@);
    }

    /// It wrote a chunk of diagnostics. Gives the progress that it reports.
    pub fn on_stderr(&mut self, data: &Vec<u8>) -> (r: Vec<TranscriptionProgress>)
        ensures
            progress_view(r@) == progress_in(
                lines_of(decoded(data@)),
                lines_of(decoded(data@)).len() as int,
            ),
            final(self).stderr@ == old(self).stderr@ + decoded(data@),
            final(self).stdout == old(self).stdout,
            final(self).exit_code == old(self).exit_code,
            final(self).label == old(self).label,
    {
        let chunk = decode(data);
        self.stderr.append(chunk.as_str());
        parse_progress(chunk.as_str())
    }

    /// The text of its answer so far.
    pub fn answer_text(&self) -> (r: String)
        ensures
            r@ == decoded(self.stdout@),
    {
        decode(&self.stdout)
    }

    /// It ended.
    pub fn on_exit(&mut self, code: Option<i32>)
        ensures
            *final(self) == (SidecarRun { exit_code: code, ..*old(self) }),
    {
        self.exit_code = code;
    }

    /// Whether it has taken longer than ten minutes; then, what is said.
    pub fn timed_out(&self, elapsed_ms: u64) -> (r: Option<String>)
        ensures
            r is Some == (elapsed_ms > 600_000),
            r is Some ==> r->0@ == self.label@ + " sidecar timed out after 10 minutes"@,
    {
        if elapsed_ms > 600_000 {
            Some(joined(self.label.as_str(), " sidecar timed out after 10 minutes"))
        } else {
            None
        }
    }

    /// Whether it succeeded; else, what is said.
    pub fn check_exit(&self) -> (r: Result<(), String>)
        ensures
            r is Ok == (self.exit_code == Some(0i32)),
            r is Err ==> r->Err_0@ == self.label@ + " sidecar failed: "@ + self.stderr@,
    {
        let ok = match self.exit_code {
            Some(code) => code == 0,
            None => false,
        };
        if ok {
            Ok(())
        } else {
            Err(joined3(self.label.as_str(), " sidecar failed: ", self.stderr.as_str()))
        }
    }
}

/// What a sidecar answers.
#[derive(Debug)]
pub struct SidecarOutput {
    pub model: String,
    pub text: String,
    pub segments: Vec<TranscriptSegment>,
}

/// A segment as its parts: speaker, start, end, text.
pub type SegmentParts = (Seq<char>, Seq<char>, Seq<char>, Seq<char>);

/// The parts of a segment; times as they are written.
pub open spec fn segment_parts(s: TranscriptSegment) -> SegmentParts {
    (s.speaker_id@, s.start_time.text@, s.end_time.text@, s.text@)
}

/// The parts of several segments.
pub open spec fn segments_view(s: Seq<TranscriptSegment>) -> Seq<SegmentParts> {
    s.map_values(|x: TranscriptSegment| segment_parts(x))
}

/// A number that must be there, as it is written.
pub open spec fn required_number(value: Option<Json>, field: Seq<char>) -> Result<
    Seq<char>,
    Seq<char>,
> {
    match value {
        None => Err(missing(field)),
        Some(Json::Number(n)) => Ok(n.text@),
        Some(v) => Err(invalid_type(v, "f64"@)),
    }
}

fn read_number(value: Option<Json>, field: &str) -> (r: Result<JsonNumber, String>)
    ensures
        match r {
            Ok(n) => required_number(value, field@) == Ok::<Seq<char>, Seq<char>>(n.text@),
            Err(m) => required_number(value, field@) == Err::<Seq<char>, Seq<char>>(m@),
        },
{
    match value {
        None => Err(not_there(field)),
        Some(Json::Number(n)) => Ok(n),
        Some(v) => Err(wrong_type(&v, "f64")),
    }
}

/// What a segment of an answer means.
pub open spec fn answered_segment(value: Json) -> Result<SegmentParts, Seq<char>> {
    if !is_record(value, 4, 4) {
        Err(no_record(value, "struct SidecarSegment"@))
    } else {
        match required_text(field_of(value, 0, "speakerId"@), "speakerId"@) {
            Err(m) => Err(m),
            Ok(speaker) => match required_number(field_of(value, 1, "startTime"@), "startTime"@) {
                Err(m) => Err(m),
                Ok(start) => match required_number(field_of(value, 2, "endTime"@), "endTime"@) {
                    Err(m) => Err(m),
                    Ok(end) => match required_text(field_of(value, 3, "text"@), "text"@) {
                        Err(m) => Err(m),
                        Ok(text) => Ok((speaker, start, end, text)),
                    },
                },
            },
        }
    }
}

proof fn lemma_answer_fields_differ()
    ensures
        "speakerId"@ != "startTime"@,
        "speakerId"@ != "endTime"@,
        "speakerId"@ != "text"@,
        "startTime"@ != "endTime"@,
        "startTime"@ != "text"@,
        "endTime"@ != "text"@,
        "model"@ != "text"@,
        "model"@ != "segments"@,
        "text"@ != "segments"@,
{
    reveal_strlit("speakerId");
    reveal_strlit("startTime");
    reveal_strlit("endTime");
    reveal_strlit("text");
    reveal_strlit("model");
    reveal_strlit("segments");
    assert("speakerId"@.len() == 9 && "speakerId"@[1] == 'p');
    assert("startTime"@.len() == 9 && "startTime"@[1] == 't');
    assert("endTime"@.len() == 7 && "text"@.len() == 4 && "model"@.len() == 5);
    assert("segments"@.len() == 8);
}

fn read_segment(value: Json) -> (r: Result<TranscriptSegment, String>)
    ensures
        match r {
            Ok(s) => answered_segment(value) == Ok::<SegmentParts, Seq<char>>(segment_parts(s)),
            Err(m) => answered_segment(value) == Err::<SegmentParts, Seq<char>>(m@),
        },
{
    proof {
        lemma_answer_fields_differ();
    }
    if !record(&value, 4, 4) {
        return Err(not_a_record(&value, "struct SidecarSegment"));
    }
    let mut fields = Fields::of(value);
    let speaker_id = match read_text(fields.take("speakerId"), "speakerId") {
        Ok(s) => s,
        Err(m) => {
            return Err(m);
        },
    };
    let start_time = match read_number(fields.take("startTime"), "startTime") {
        Ok(s) => s,
        Err(m) => {
            return Err(m);
        },
    };
    let end_time = match read_number(fields.take("endTime"), "endTime") {
        Ok(s) => s,
        Err(m) => {
            return Err(m);
        },
    };
    let text = match read_text(fields.take("text"), "text") {
        Ok(s) => s,
        Err(m) => {
            return Err(m);
        },
    };
    Ok(TranscriptSegment { speaker_id, start_time, end_time, text })
}

/// What the first `n` segments of an answer mean.
pub open spec fn answered_segments(items: Seq<Json>, n: int) -> Result<
    Seq<SegmentParts>,
    Seq<char>,
>
    decreases n,
{
    if n <= 0 {
        Ok(Seq::empty())
    } else {
        match answered_segments(items, n - 1) {
            Err(m) => Err(m),
            Ok(before) => match answered_segment(items[n - 1]) {
                Err(m) => Err(m),
                Ok(s) => Ok(before.push(s)),
            },
        }
    }
}

proof fn lemma_answered_segments_fail(items: Seq<Json>, i: int, n: int)
    requires
        i <= n,
        answered_segments(items, i) is Err,
    ensures
        answered_segments(items, n) == answered_segments(items, i),
    decreases n - i,
{
    if i < n {
        lemma_answered_segments_fail(items, i, n - 1);
    }
}

/// The segments of an answer are the elements of its list, each in its place and with its
/// own speaker, times and text: the list is read exactly if each element has these four.
pub proof fn law_segments_in_order(items: Seq<Json>, n: int)
    requires
        0 <= n <= items.len(),
    ensures
        answered_segments(items, n) is Ok ==> {
            let all = answered_segments(items, n)->Ok_0;
            &&& all.len() == n
            &&& forall|i: int|
                0 <= i < n ==> has_parts(
                    #[trigger] items[i],
                    all[i].0,
                    all[i].1,
                    all[i].2,
                    all[i].3,
                )
        },
        (forall|i: int| 0 <= i < n ==> is_segment(#[trigger] items[i])) ==> answered_segments(
            items,
            n,
        ) is Ok,
    decreases n,
{
    if n > 0 {
        law_segments_in_order(items, n - 1);
        let v = items[n - 1];
        if is_segment(v) {
            let (a, b, c, d) = choose|a: Seq<char>, b: Seq<char>, c: Seq<char>, d: Seq<char>|
                has_parts(v, a, b, c, d);
            assert(answered_segment(v) is Ok);
        }
        if answered_segments(items, n) is Ok {
            let all = answered_segments(items, n)->Ok_0;
            let before = answered_segments(items, n - 1)->Ok_0;
            assert forall|i: int| 0 <= i < n implies has_parts(
                #[trigger] items[i],
                all[i].0,
                all[i].1,
                all[i].2,
                all[i].3,
            ) by {
                if i < n - 1 {
                    assert(all[i] == before[i]);
                }
            }
        }
    }
}

/// An element of the list of segments that can be read.
pub open spec fn is_segment(v: Json) -> bool {
    exists|a: Seq<char>, b: Seq<char>, c: Seq<char>, d: Seq<char>| has_parts(v, a, b, c, d)
}

/// An element of the list of segments: an object with these under their names, or an array
/// of these four.
pub open spec fn has_parts(
    v: Json,
    speaker: Seq<char>,
    start: Seq<char>,
    end: Seq<char>,
    text: Seq<char>,
) -> bool {
    let (a, b, c, d) = match v {
        Json::Object(e) => (
            entry_of(e@, "speakerId"@),
            entry_of(e@, "startTime"@),
            entry_of(e@, "endTime"@),
            entry_of(e@, "text"@),
        ),
        Json::List(l) if l@.len() == 4 => (Some(l@[0]), Some(l@[1]), Some(l@[2]), Some(l@[3])),
        _ => (None, None, None, None),
    };
    &&& a matches Some(Json::Text(t)) && t@ == speaker
    &&& b matches Some(Json::Number(t)) && t.text@ == start
    &&& c matches Some(Json::Number(t)) && t.text@ == end
    &&& d matches Some(Json::Text(t)) && t@ == text
}

fn read_segments(items: Vec<Json>) -> (r: Result<Vec<TranscriptSegment>, String>)
    ensures
        match r {
            Ok(all) => answered_segments(items@, items@.len() as int) == Ok::<
                Seq<SegmentParts>,
                Seq<char>,
            >(segments_view(all@)),
            Err(m) => answered_segments(items@, items@.len() as int) == Err::<
                Seq<SegmentParts>,
                Seq<char>,
            >(m@),
        },
{
    let ghost all = items@;
    let mut rest = items;
    let mut out: Vec<TranscriptSegment> = Vec::new();
    let n: usize = rest.len();
    let mut i: usize = 0;
    assert(all.skip(0) =~= all);
    assert(segments_view(out@) =~= Seq::empty());
    while i < n
        invariant
            i <= n,
            n == all.len(),
            all == items@,
            rest@ == all.skip(i as int),
            answered_segments(all, i as int) == Ok::<Seq<SegmentParts>, Seq<char>>(
                segments_view(out@),
            ),
        decreases n - i,
    {
        let s = rest.remove(0);
        assert(all.skip(i as int)[0] == all[i as int]);
        assert(all.skip(i as int).remove(0) =~= all.skip(i as int + 1));
        match read_segment(s) {
            Ok(segment) => {
                let ghost before = out@;
                let ghost v = segment_parts(segment);
                out.push(segment);
                assert(segments_view(out@) =~= segments_view(before).push(v));
            },
            Err(m) => {
                proof {
                    lemma_answered_segments_fail(all, i as int + 1, n as int);
                }
                return Err(m);
            },
        }
        i += 1;
    }
    Ok(out)
}

/// The segments of an answer; none where it has no such field.
pub open spec fn segments_in(value: Option<Json>) -> Result<Seq<SegmentParts>, Seq<char>> {
    match value {
        None => Ok(Seq::empty()),
        Some(Json::List(items)) => answered_segments(items@, items@.len() as int),
        Some(v) => Err(invalid_type(v, "a sequence"@)),
    }
}

/// What an answer means: model, text, segments.
pub open spec fn answer_of(value: Json) -> Result<
    (Seq<char>, Seq<char>, Seq<SegmentParts>),
    Seq<char>,
> {
    if !is_record(value, 2, 3) {
        Err(no_record(value, "struct FluidAudioOutput"@))
    } else {
        match required_text(field_of(value, 0, "model"@), "model"@) {
            Err(m) => Err(m),
            Ok(model) => match required_text(field_of(value, 1, "text"@), "text"@) {
                Err(m) => Err(m),
                Ok(text) => match segments_in(field_of(value, 2, "segments"@)) {
                    Err(m) => Err(m),
                    Ok(segments) => Ok((model, text, segments)),
                },
            },
        }
    }
}

/// An answer that is an object with a model and a text is read with both, and with a
/// segment for each element of its list of segments, in the order of the list; with none
/// where it has no list.
pub proof fn law_answer_is_read(entries: Vec<(String, Json)>, model: String, text: String)
    requires
        entry_of(entries@, "model"@) == Some(Json::Text(model)),
        entry_of(entries@, "text"@) == Some(Json::Text(text)),
    ensures
        entry_of(entries@, "segments"@) is None ==> answer_of(Json::Object(entries)) == Ok::<
            (Seq<char>, Seq<char>, Seq<SegmentParts>),
            Seq<char>,
        >((model@, text@, Seq::empty())),
        entry_of(entries@, "segments"@) matches Some(Json::List(items)) ==> {
            &&& (forall|i: int| 0 <= i < items@.len() ==> is_segment(#[trigger] items@[i]))
                ==> answer_of(Json::Object(entries)) is Ok
            &&& answer_of(Json::Object(entries)) is Ok ==> {
                let r = answer_of(Json::Object(entries))->Ok_0;
                &&& r.0 == model@ && r.1 == text@
                &&& r.2.len() == items@.len()
                &&& forall|i: int|
                    0 <= i < items@.len() ==> has_parts(
                        #[trigger] items@[i],
                        r.2[i].0,
                        r.2[i].1,
                        r.2[i].2,
                        r.2[i].3,
                    )
            }
        },
{
    match entry_of(entries@, "segments"@) {
        Some(Json::List(items)) => {
            law_segments_in_order(items@, items@.len() as int);
        },
        _ => {},
    }
}

/// Reads what a sidecar answered.
pub fn read_answer(value: Json) -> (r: Result<SidecarOutput, String>)
    ensures
        match r {
            Ok(a) => answer_of(value) == Ok::<
                (Seq<char>, Seq<char>, Seq<SegmentParts>),
                Seq<char>,
            >((a.model@, a.text@, segments_view(a.segments@))),
            Err(m) => answer_of(value) == Err::<
                (Seq<char>, Seq<char>, Seq<SegmentParts>),
                Seq<char>,
            >(m@),
        },
{
    proof {
        lemma_answer_fields_differ();
    }
    if !record(&value, 2, 3) {
        return Err(not_a_record(&value, "struct FluidAudioOutput"));
    }
    let mut fields = Fields::of(value);
    let model = match read_text(fields.take("model"), "model") {
        Ok(s) => s,
        Err(m) => {
            return Err(m);
        },
    };
    let text = match read_text(fields.take("text"), "text") {
        Ok(s) => s,
        Err(m) => {
            return Err(m);
        },
    };
    let segments = match fields.take("segments") {
        None => {
            let none: Vec<TranscriptSegment> = Vec::new();
            assert(segments_view(none@) =~= Seq::empty());
            none
        },
        Some(Json::List(items)) => match read_segments(items) {
            Ok(all) => all,
            Err(m) => {
                return Err(m);
            },
        },
        Some(v) => {
            return Err(wrong_type(&v, "a sequence"));
        },
    };
    Ok(SidecarOutput { model, text, segments })
}

/// What the text of an answer means, unless it is refused.
pub open spec fn answer_in(stdout: Seq<char>, refusal: Option<Seq<char>>, label: Seq<char>) -> Result<
    (Seq<char>, Seq<char>, Seq<SegmentParts>),
    Seq<char>,
> {
    let read = match refusal {
        Some(m) => Err(m),
        None => match json_result(stdout) {
            Err(e) => Err(e),
            Ok(value) => answer_of(value),
        },
    };
    match read {
        Err(e) => Err("Failed to parse "@ + label + " output: "@ + e),
        Ok(a) => Ok(a),
    }
}

/// Reads the text of an answer. `refusal` is what a reader of typed answers has against
/// it: it alone sees that a field stands twice, and where in the text a fault lies.
pub fn parse_sidecar_output(stdout: &str, refusal: Option<String>, label: &str) -> (r: Result<
    SidecarOutput,
    String,
>)
    ensures
        match r {
            Ok(a) => answer_in(stdout@, name_view(refusal), label@) == Ok::<
                (Seq<char>, Seq<char>, Seq<SegmentParts>),
                Seq<char>,
            >((a.model@, a.text@, segments_view(a.segments@))),
            Err(m) => answer_in(stdout@, name_view(refusal), label@) == Err::<
                (Seq<char>, Seq<char>, Seq<SegmentParts>),
                Seq<char>,
            >(m@),
        },
{
    let read = match refusal {
        Some(m) => Err(m),
        None => match parse(stdout) {
            Err(e) => Err(e),
            Ok(value) => read_answer(value),
        },
    };
    match read {
        Ok(a) => Ok(a),
        Err(e) => {
            let mut m = joined3("Failed to parse ", label, " output: ");
            m.append(e.as_str());
            Err(m)
        },
    }
}

/// What a sidecar that has ended answered: its failure, or what it wrote. `refusal` is
/// what a reader of typed answers has against the text that it wrote.
pub fn sidecar_answer(run: &SidecarRun, refusal: Option<String>) -> (r: Result<
    SidecarOutput,
    String,
>)
    ensures
        run.exit_code != Some(0i32) ==> r is Err && r->Err_0@ == run.label@ + " sidecar failed: "@
            + run.stderr@,
        run.exit_code == Some(0i32) ==> match r {
            Ok(a) => answer_in(decoded(run.stdout@), name_view(refusal), run.label@) == Ok::<
                (Seq<char>, Seq<char>, Seq<SegmentParts>),
                Seq<char>,
            >((a.model@, a.text@, segments_view(a.segments@))),
            Err(m) => answer_in(decoded(run.stdout@), name_view(refusal), run.label@) == Err::<
                (Seq<char>, Seq<char>, Seq<SegmentParts>),
                Seq<char>,
            >(m@),
        },
{
    match run.check_exit() {
        Ok(()) => parse_sidecar_output(
            run.answer_text().as_str(),
            refusal,
            run.label.as_str(),
        ),
        Err(m) => Err(m),
    }
}

/// The transcript of an answer, made at `now`.
pub fn transcript_at(
    answer: SidecarOutput,
    source: TranscriptSource,
    duration_ms: u64,
    now: String,
) -> (r: TranscriptJson)
    ensures
        r.source == source,
        r.model == answer.model,
        r.created_at == now,
        r.duration_ms == duration_ms,
        r.language is Some,
        r.language->0@ == "auto"@,
        r.text == Some(answer.text),
        r.segments == answer.segments,
        r.speaker_names@.len() == 0,
{
    TranscriptJson {
        source,
        model: answer.model,
        created_at: now,
        duration_ms,
        language: Some("auto".to_owned()),
        text: Some(answer.text),
        segments: answer.segments,
        speaker_names: Vec::new(),
    }
}

/// The transcript of an answer, made now.
pub fn transcript_of(answer: SidecarOutput, source: TranscriptSource, duration_ms: u64) -> (r:
    TranscriptJson)
    ensures
        r.source == source,
        r.model == answer.model,
        is_stamp(r.created_at@),
        r.duration_ms == duration_ms,
        r.language is Some,
        r.language->0@ == "auto"@,
        r.text == Some(answer.text),
        r.segments == answer.segments,
        r.speaker_names@.len() == 0,
{
    transcript_at(answer, source, duration_ms, now_stamp())
}

/// What is shown of a transcript document of the older form: what follows its
/// metadata block, else all of it.
pub fn legacy_transcript_text(content: &str) -> (r: String)
    ensures
        r@ == match split(content@) {
            Some(parts) => trimmed(parts.1),
            None => content@,
        },
{
    match split_frontmatter(content) {
        Some(parts) => trim(parts.1.as_str()),
        None => content.to_owned(),
    }
}

/// The sum of a frame over the first `n` channels that have it.
pub open spec fn frame_sum(packet: Seq<Vec<i16>>, frame: int, n: int) -> int
    decreases n,
{
    if n <= 0 {
        0
    } else {
        frame_sum(packet, frame, n - 1) + if n - 1 < packet.len() && frame < packet[n
            - 1]@.len() {
            packet[n - 1]@[frame] as int
        } else {
            0
        }
    }
}

/// A quotient, rounded towards zero.
pub open spec fn towards_zero(a: int, b: int) -> int {
    if a >= 0 {
        a / b
    } else {
        -((-a) / b)
    }
}

/// Mixes the channels of a decoded packet down to one: the mean of each frame,
/// rounded towards zero.
pub fn mix_to_mono(packet: &Vec<Vec<i16>>, channels: u16) -> (r: Vec<i32>)
    requires
        channels > 0,
    ensures
        packet@.len() == 0 ==> r@.len() == 0,
        packet@.len() > 0 ==> r@.len() == packet@[0]@.len(),
        forall|i: int|
            0 <= i < r@.len() ==> #[trigger] r@[i] == towards_zero(
                frame_sum(packet@, i, channels as int),
                channels as int,
            ),
{
    let mut out: Vec<i32> = Vec::new();
    if packet.len() == 0 {
        return out;
    }
    let frames: usize = packet[0].len();
    let mut i: usize = 0;
    while i < frames
        invariant
            i <= frames,
            packet@.len() > 0,
            frames == packet@[0]@.len(),
            channels > 0,
            out@.len() == i,
            forall|k: int|
                0 <= k < i ==> #[trigger] out@[k] == towards_zero(
                    frame_sum(packet@, k, channels as int),
                    channels as int,
                ),
        decreases frames - i,
    {
        let mut sum: i32 = 0;
        let mut c: u16 = 0;
        while c < channels
            invariant
                c <= channels,
                sum == frame_sum(packet@, i as int, c as int),
                -32768 * c <= sum <= 32767 * c,
            decreases channels - c,
        {
            if (c as usize) < packet.len() && i < packet[c as usize].len() {
                sum += packet[c as usize][i] as i32;
            }
            c += 1;
        }
        let n: i32 = channels as i32;
        let mean: i32 = if sum >= 0 {
            sum / n
        } else {
            -((-sum) / n)
        };
        out.push(mean);
        i += 1;
    }
    out
}

/// The document to export: the transcript with its metadata in front, else the document
/// of old as it is.
pub fn export_transcript(transcript: Option<(&TranscriptJson, &str)>, document: Option<String>) -> (r:
    Result<String, String>)
    ensures
        match transcript {
            Some(t) => r is Ok && r->Ok_0@ == framed(t.1@, shown(*t.0)),
            None => match document {
                Some(d) => r is Ok && r->Ok_0 == d,
                None => r is Err && r->Err_0@ == "No transcript found"@,
            },
        },
{
    match transcript {
        Some((t, metadata)) => Ok(frame(metadata, render_transcript_from_json(t).as_str())),
        None => match document {
            Some(d) => Ok(d),
            None => Err("No transcript found".to_owned()),
        },
    }
}

/// The preview shows the transcript itself, cut to two hundred characters.
pub proof fn law_preview_shows_the_transcript(t: TranscriptJson)
    ensures
        preview_of(t).len() <= 200,
        !crate::text::occurs(shown(t), "**"@) ==> preview_of(t) == truncated(shown(t), 200),
        !crate::text::occurs(shown(t), "**"@) && collapsed(shown(t)).len() <= 200 ==> preview_of(t)
            == collapsed(shown(t)),
{
    reveal_strlit("**");
    reveal_strlit("");
    crate::text::law_replaced(Seq::empty(), "**"@, ""@, shown(t));
    law_preview(replaced(shown(t), "**"@, ""@), 200);
    law_preview(shown(t), 200);
}

/// After a rename the speaker is called by the new name, without the white space around
/// it; where that is blank, by the identifier. The others are called as before.
pub proof fn law_rename(
    before: Seq<(String, String)>,
    after: Seq<(String, String)>,
    id: Seq<char>,
    display_name: Seq<char>,
    other: Seq<char>,
)
    requires
        renamed(before, after, id, display_name),
    ensures
        !all_space(display_name) ==> speaker_called(after, id) == trimmed(display_name),
        all_space(display_name) ==> speaker_called(after, id) == id,
        other != id ==> speaker_called(after, other) == speaker_called(before, other),
{
    law_blank(display_name);
    assert(name_in(after, other) == name_in(after, other));
}

/// The engine is told the file first, then, of the speech engines, whether to leave the
/// speakers together, which model to take, and how to recover mixed languages.
pub proof fn law_engine_is_told(
    settings: AppSettings,
    wav: Seq<char>,
    vocab_path: Option<Seq<char>>,
)
    ensures
        ({
            let t = settings.transcription;
            let args = sidecar_args(settings, wav, vocab_path);
            let rest = args.skip(
                if t.diarize {
                    1
                } else {
                    2
                },
            );
            let apple = t.provider == TranscriptionProvider::AppleSpeech;
            let qwen = t.provider == TranscriptionProvider::Qwen3;
            &&& args.len() > 0 && args[0] == wav
            &&& apple ==> args == seq![wav, "--lang"@, t.apple_locale@]
            &&& !apple && !t.diarize ==> args.len() > 1 && args[1] == "--no-diarize"@
            &&& qwen ==> rest == seq!["--engine"@, "qwen3"@, "--variant"@, t.qwen3_variant@]
            &&& !apple && !qwen && (vocab_path is None || t.translit_lang@ == "off"@)
                ==> rest.len() == 0
            &&& !apple && !qwen && vocab_path is Some && t.translit_lang@ != "off"@ ==> rest
                == seq![
                "--translit-all"@,
                "--translit-threshold"@,
                t.translit_threshold@,
                "--translit-min-len"@,
                decimal_of(t.translit_min_len as nat),
                "--vocab"@,
                vocab_path->0,
            ]
        }),
        engine_label(settings.transcription.provider) == "Apple Speech"@ || engine_label(
            settings.transcription.provider,
        ) == "FluidAudio"@,
        source_for(settings.transcription.provider) is Apple <==> sidecar_args(
            settings,
            wav,
            vocab_path,
        ) == seq![wav, "--lang"@, settings.transcription.apple_locale@],
{
    let t = settings.transcription;
    let args = sidecar_args(settings, wav, vocab_path);
    let from: int = if t.diarize {
        1
    } else {
        2
    };
    if t.provider != TranscriptionProvider::AppleSpeech {
        assert(args.skip(from) =~= engine_args(settings, vocab_path));
        reveal_strlit("--lang");
        reveal_strlit("--no-diarize");
        reveal_strlit("--engine");
        reveal_strlit("--translit-all");
        assert("--lang"@.len() == 6 && "--no-diarize"@.len() == 12);
        assert("--engine"@.len() == 8 && "--translit-all"@.len() == 14);
        let short = seq![wav, "--lang"@, t.apple_locale@];
        assert(short.len() == 3);
        assert(short[1] == "--lang"@);
        if args == short {
            assert(args[1] == "--lang"@);
            if t.diarize {
                assert(args[1] == engine_args(settings, vocab_path)[0]);
            } else {
                assert(args[1] == "--no-diarize"@);
            }
        }
    }
}

/// The mix is preferred to the microphone; either is looked for in the directory of the
/// recording.
pub proof fn law_audio_file(dir: Seq<char>, mic_exists: bool)
    ensures
        audio_file(dir, true, mic_exists) == Some(under(dir, "audio_mix.ogg"@)),
        audio_file(dir, false, true) == Some(under(dir, "raw_mic.ogg"@)),
        audio_file(dir, false, false) is None,
{
}

/// A line that names a stage and a number reports them; a line that does not begin as
/// a report, or has no number at its end, reports nothing.
pub proof fn law_progress_line(stage: Seq<char>, n: nat, rest: Seq<char>, line: Seq<char>)
    requires
        !stage.contains(':'),
    ensures
        n <= u32::MAX ==> progress_line("PROGRESS:"@ + (stage + seq![':'] + decimal_of(n)))
            == Some((stage, n)),
        n > u32::MAX ==> progress_line("PROGRESS:"@ + (stage + seq![':'] + decimal_of(n))) is None,
        rest.len() == 0 || !crate::text::is_digit(rest.last()) ==> progress_line(
            "PROGRESS:"@ + (stage + seq![':'] + rest),
        ) is None,
        progress_line("PROGRESS:"@ + stage) is None,
        !crate::text::starts(line, "PROGRESS:"@) ==> progress_line(line) is None,
{
    let p = "PROGRESS:"@;
    lemma_progress_rest(stage, decimal_of(n));
    lemma_progress_rest(stage, rest);
    crate::text::law_decimal(n);
    crate::text::law_after_prefix(p, stage + seq![':'] + decimal_of(n), line);
    crate::text::law_after_prefix(p, stage + seq![':'] + rest, line);
    crate::text::law_after_prefix(p, stage, line);
    crate::text::lemma_until(stage, ':');
    if until(stage, ':') < stage.len() {
        assert(stage[until(stage, ':')] == ':');
        assert(stage.contains(':'));
    }
    let digits = if rest.len() > 0 && rest[0] == '+' {
        rest.skip(1)
    } else {
        rest
    };
    if rest.len() > 0 && !crate::text::is_digit(rest.last()) && digits.len() > 0 {
        assert(digits[digits.len() - 1] == rest.last());
    }
}

proof fn lemma_progress_rest(stage: Seq<char>, tail: Seq<char>)
    requires
        !stage.contains(':'),
    ensures
        ({
            let all = stage + seq![':'] + tail;
            &&& until(all, ':') == stage.len()
            &&& stage.len() < all.len()
            &&& all.take(stage.len() as int) == stage
            &&& all.skip(stage.len() as int + 1) == tail
        }),
{
    let all = stage + seq![':'] + tail;
    let n = stage.len() as int;
    assert(all[n] == ':');
    assert forall|k: int| 0 <= k < n implies all[k] != ':' by {
        assert(stage.contains(stage[k]));
    }
    crate::text::lemma_until(all, ':');
    assert(all.take(n) =~= stage);
    assert(all.skip(n + 1) =~= tail);
}

/// Reports come in the order of their lines; lines that report nothing are passed over.
pub proof fn law_progress_in_order(lines: Seq<Seq<char>>, n: int, stage: Seq<char>, percent: nat)
    requires
        0 < n <= lines.len(),
    ensures
        progress_in(lines, 0).len() == 0,
        progress_line(lines[n - 1]) is None ==> progress_in(lines, n) == progress_in(lines, n - 1),
        progress_line(lines[n - 1]) == Some((stage, percent)) ==> progress_in(lines, n)
            == progress_in(lines, n - 1).push((stage, percent)),
{
}

/// The mean of a frame: a sample that all channels share is the mean, and a mean lies
/// within one of the exact quotient, on the side of zero.
pub proof fn law_frame_mean(packet: Seq<Vec<i16>>, frame: int, channels: int, sample: int)
    requires
        0 < channels,
        0 <= frame,
    ensures
        ({
            let mean = towards_zero(frame_sum(packet, frame, channels), channels);
            let sum = frame_sum(packet, frame, channels);
            &&& channels <= packet.len() && (forall|c: int|
                0 <= c < channels ==> frame < (#[trigger] packet[c])@.len() && packet[c]@[frame]
                    == sample) ==> mean == sample
            &&& sum >= 0 ==> 0 <= sum - channels * mean < channels
            &&& sum <= 0 ==> 0 <= channels * mean - sum < channels
            &&& channels == 2 && packet.len() == 2 && frame < packet[0]@.len() && frame
                < packet[1]@.len() ==> sum == packet[0]@[frame] + packet[1]@[frame]
            &&& channels == 2 && packet.len() == 1 && frame < packet[0]@.len() ==> sum
                == packet[0]@[frame]
        }),
{
    let sum = frame_sum(packet, frame, channels);
    let mean = towards_zero(sum, channels);
    reveal_with_fuel(frame_sum, 3);
    assert(sum >= 0 ==> 0 <= sum - channels * (sum / channels) < channels) by (nonlinear_arith)
        requires
            channels > 0,
    ;
    let back = -sum;
    assert(0 <= back - channels * (back / channels) < channels) by (nonlinear_arith)
        requires
            channels > 0,
    ;
    assert(channels * (-(back / channels)) == -(channels * (back / channels)))
        by (nonlinear_arith);
    if sum == 0 {
        assert(0int / channels == 0) by (nonlinear_arith)
            requires
                channels > 0,
        ;
        assert(channels * 0 == 0);
    }
    if channels <= packet.len() && (forall|c: int|
        0 <= c < channels ==> frame < (#[trigger] packet[c])@.len() && packet[c]@[frame]
            == sample) {
        lemma_even_frame(packet, frame, channels, channels, sample);
        if sample >= 0 {
            assert(channels * sample >= 0 && (channels * sample) / channels == sample)
                by (nonlinear_arith)
                requires
                    channels > 0,
                    sample >= 0,
            ;
        } else {
            let less = -sample;
            assert(channels * sample < 0 && -(channels * sample) == channels * less && (channels
                * less) / channels == less) by (nonlinear_arith)
                requires
                    channels > 0,
                    less > 0,
                    less == -sample,
            ;
        }
    }
}

proof fn lemma_even_frame(packet: Seq<Vec<i16>>, frame: int, channels: int, n: int, sample: int)
    requires
        0 <= n <= channels <= packet.len(),
        0 <= frame,
        forall|c: int|
            0 <= c < channels ==> frame < (#[trigger] packet[c])@.len() && packet[c]@[frame]
                == sample,
    ensures
        frame_sum(packet, frame, n) == n * sample,
    decreases n,
{
    if n > 0 {
        lemma_even_frame(packet, frame, channels, n - 1, sample);
        assert(packet[n - 1]@[frame] == sample);
        assert(n * sample == (n - 1) * sample + sample) by (nonlinear_arith);
    } else {
        assert(n * sample == 0) by (nonlinear_arith)
            requires
                n == 0,
        ;
    }
}

} // verus!
