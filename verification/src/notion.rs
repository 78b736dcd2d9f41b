//! Notion pages from the JSON that a language model wrote.

use crate::artifacts::{
    artifact, entries_of, escape_line, field_in, law_artifact_reads_back, lemma_keys, lemma_quoted,
    one_line, one_line_each, quoted, write_artifact, write_entry, write_quoted,
};
use crate::frontmatter::{body, strip_frontmatter};
use crate::json::{array_in, entry_of, lookup, parse_array, Json, JsonNumber};
use crate::pipeline_engine::reported;
use crate::seqs::first_index;
use crate::text::{
    alike, ascii_lower, chars_of, decimal, decimal_of, find_from, first_at, holds, join, joined,
    joined3, joined_by, lemma_first_at, listed, occurs, occurs_at, same, starts, stripped, take,
    taken, text_of, trim, trimmed, views,
};
use crate::time::{day_result, parse_day, parse_utc, utc_result, Day, Instant};
use vstd::prelude::*;

verus! {

/// Why the Notion connector failed.
///
/// `JsonParse` carries the full output of the model, so that a caller can try
/// again with a corrective prompt. For `Other` a second try would not help.
#[derive(Debug)]
pub enum NotionErrorKind {
    JsonParse { message: String, raw_output: String },
    Other(String),
}

/// A failure of the Notion connector.
#[derive(Debug)]
pub struct NotionError {
    pub kind: NotionErrorKind,
}

impl NotionError {
    /// What the error says.
    pub open spec fn message(self) -> Seq<char> {
        match self.kind {
            NotionErrorKind::JsonParse { message, raw_output } => message@,
            NotionErrorKind::Other(message) => message@,
        }
    }

    /// Whether this is a parse failure with the given message and raw output.
    pub open spec fn is_parse(self, message: Seq<char>, raw_output: Seq<char>) -> bool {
        match self.kind {
            NotionErrorKind::JsonParse { message: m, raw_output: r } => m@ == message && r@
                == raw_output,
            NotionErrorKind::Other(_) => false,
        }
    }

    /// Whether this is another failure with the given message.
    pub open spec fn is_other(self, message: Seq<char>) -> bool {
        match self.kind {
            NotionErrorKind::JsonParse { message: m, raw_output: r } => false,
            NotionErrorKind::Other(m) => m@ == message,
        }
    }

    /// What the error says.
    pub fn to_text(&self) -> (r: String)
        ensures
            r@ == self.message(),
    {
        match &self.kind {
            NotionErrorKind::JsonParse { message, raw_output: _ } => message.clone(),
            NotionErrorKind::Other(message) => message.clone(),
        }
    }
}

fn other(message: String) -> (r: NotionError)
    ensures
        r.is_other(message@),
{
    NotionError { kind: NotionErrorKind::Other(message) }
}

/// A property of the database, as its schema describes it.
#[derive(Debug)]
pub struct NotionProperty {
    pub name: String,
    pub property_type: String,
    pub select_options: Vec<String>,
}

/// A person of the workspace and the alias by which the model names them.
#[derive(Debug)]
pub struct PersonMapping {
    pub alias: String,
    pub notion_user_id: String,
    pub display_name: String,
}

/// A connected database: its schema and the people it knows.
#[derive(Debug)]
pub struct NotionIntegrationProfile {
    pub database_id: String,
    pub properties: Vec<NotionProperty>,
    pub people_mappings: Vec<PersonMapping>,
}

/// The text under `integration_id` in the configuration of a step.
pub fn integration_id(config: &Json) -> (r: Result<String, NotionError>)
    ensures
        match r {
            Ok(id) => config.member_text("integration_id"@) == Some(id@),
            Err(e) => config.member_text("integration_id"@) is None && e.is_other(
                "Notion connector config missing 'integration_id'. Add integration_id to the step config in the pipeline definition."@,
            ),
        },
{
    match config.get_text("integration_id") {
        Some(id) => Ok(id.clone()),
        None => Err(
            other(
                "Notion connector config missing 'integration_id'. Add integration_id to the step config in the pipeline definition.".to_owned(),
            ),
        ),
    }
}

/// What stands between the first `open` fence and the next closing fence.
pub open spec fn fenced(s: Seq<char>, open: Seq<char>) -> Option<Seq<char>> {
    match first_at(s, open, 0) {
        Some(i) => {
            let rest = s.skip(i + open.len());
            match first_at(rest, "```"@, 0) {
                Some(e) => Some(trimmed(rest.take(e))),
                None => None,
            }
        },
        None => None,
    }
}

fn fence(s: &str, open: &str) -> (r: Option<String>)
    ensures
        match r {
            Some(t) => fenced(s@, open@) == Some(t@),
            None => fenced(s@, open@) is None,
        },
{
    let v = chars_of(s);
    let p = chars_of(open);
    let n: usize = v.len();
    match find_from(&v, &p, 0) {
        Some(i) => {
            let rest = chars_of(text_of(&v, i + p.len(), n).as_str());
            assert(rest@ =~= s@.skip(i + open@.len()));
            match find_from(&rest, &chars_of("```"), 0) {
                Some(e) => {
                    assert(rest@.subrange(0, e as int) =~= rest@.take(e as int));
                    Some(trim(text_of(&rest, 0, e).as_str()))
                },
                None => None,
            }
        },
        None => None,
    }
}

/// The texts that may be the JSON array, in the order in which they are tried:
/// the whole answer, a fenced JSON block, a fenced block without a language.
pub open spec fn candidates(t: Seq<char>) -> Seq<Seq<char>> {
    let tagged = match fenced(t, "```json"@) {
        Some(f) => seq![f],
        None => Seq::<Seq<char>>::empty(),
    };
    let plain = match fenced(t, "```\n"@) {
        Some(f) => seq![f],
        None => Seq::<Seq<char>>::empty(),
    };
    seq![t] + tagged + plain
}

/// The texts in `answer` that may be the JSON array.
pub fn json_candidates(answer: &str) -> (r: Vec<String>)
    ensures
        views(r@) == candidates(answer@),
{
    let mut out: Vec<String> = Vec::new();
    out.push(answer.to_owned());
    assert(views(out@) =~= seq![answer@]);
    match fence(answer, "```json") {
        Some(f) => {
            out.push(f);
        },
        None => {},
    }
    match fence(answer, "```\n") {
        Some(f) => {
            out.push(f);
        },
        None => {},
    }
    assert(views(out@) =~= candidates(answer@));
    out
}

/// The first of the texts, from `i` on, that is a JSON array.
pub open spec fn first_array(texts: Seq<Seq<char>>, i: int) -> Option<Seq<Json>>
    decreases texts.len() - i,
{
    if i >= texts.len() {
        None
    } else if array_in(texts[i]) is Some {
        array_in(texts[i])
    } else {
        first_array(texts, i + 1)
    }
}

/// What is said where an answer holds no JSON array.
pub open spec fn not_an_array(answer: Seq<char>) -> Seq<char> {
    "Notion connector: could not parse LLM output as JSON array.\nExpected a JSON array like: [{\"Title\": \"...\", ...}]\nRaw LLM output (first 500 chars): "@
        + taken(answer, 500)
}

/// A JSON array in brackets, with no code fence inside.
pub open spec fn bare_array(a: Seq<char>) -> bool {
    &&& array_in(a) is Some
    &&& a.len() > 0
    &&& a[0] == '['
    &&& a.last() == ']'
    &&& !occurs(a, "```"@)
}

/// `content` is `a`: bare, in a JSON code fence or in one without a language.
pub open spec fn presents(content: Seq<char>, a: Seq<char>) -> bool {
    ||| content == a
    ||| content == "```json\n"@ + a + "\n```"@
    ||| content == "```\n"@ + a + "\n```"@
}

/// The closing fence behind an array is the first one.
proof fn lemma_closing_fence(pre: Seq<char>, a: Seq<char>)
    requires
        bare_array(a),
        pre.len() <= 1,
        pre.len() == 1 ==> pre[0] == '\n',
    ensures
        first_at(pre + a + "\n```"@, "```"@, 0) == Some((pre.len() + a.len() + 1) as int),
        trimmed((pre + a + "\n```"@).take((pre.len() + a.len() + 1) as int)) == a,
{
    reveal_strlit("```");
    reveal_strlit("\n```");
    let fence = "```"@;
    let s = pre + a + "\n```"@;
    let e = (pre.len() + a.len() + 1) as int;
    let n = pre.len() as int;
    assert(s[e - 1] == '\n');
    assert forall|j: int| 0 <= j < e implies !occurs_at(s, fence, j) by {
        if occurs_at(s, fence, j) {
            assert(s.subrange(j, j + 3)[0] == s[j]);
            assert(s.subrange(j, j + 3)[1] == s[j + 1]);
            assert(s.subrange(j, j + 3)[2] == s[j + 2]);
            assert(n <= j && j + 2 < e - 1);
            assert(a.subrange(j - n, j - n + 3) =~= fence);
            assert(occurs_at(a, fence, j - n));
        }
    }
    assert(s.subrange(e, e + 3) =~= fence);
    assert(occurs_at(s, fence, e));
    lemma_first_at(s, fence, 0);
    let inner = s.take(e);
    let open = a.push('\n');
    assert(inner =~= pre + open);
    assert(open[0] == '[');
    if n == 1 {
        assert(inner.skip(1) =~= open);
        assert(inner[0] == '\n');
    } else {
        assert(inner =~= open);
    }
    reveal_with_fuel(crate::text::trimmed_start, 3);
    assert(crate::text::trimmed_start(inner) == open);
    assert(open.drop_last() =~= a);
    reveal_with_fuel(crate::text::trimmed_end, 3);
}

/// An array that is presented is the first text tried, or the second behind a
/// text that begins with a backtick.
proof fn lemma_presented(content: Seq<char>, a: Seq<char>)
    requires
        bare_array(a),
        presents(content, a),
    ensures
        trimmed(body(content)) == content,
        content == a || content.len() > 0 && content[0] == '`' && candidates(content).len() > 1
            && candidates(content)[1] == a,
{
    reveal_strlit("---");
    reveal_strlit("```");
    reveal_strlit("```\n");
    reveal_strlit("```json");
    reveal_strlit("```json\n");
    reveal_strlit("\n```");
    if starts(content, "---"@) {
        assert(content.subrange(0, 3)[0] == content[0]);
    }
    assert(body(content) == content);
    assert(content.last() == ']' || content.last() == '`');
    assert(trimmed(content) == content);
    if content == "```json\n"@ + a + "\n```"@ {
        let open = "```json"@;
        assert(content.subrange(0, 7) =~= open);
        assert(first_at(content, open, 0) == Some(0int));
        let rest = content.skip(7);
        assert(rest =~= seq!['\n'] + a + "\n```"@);
        lemma_closing_fence(seq!['\n'], a);
        assert(fenced(content, open) == Some(a));
        assert(candidates(content)[1] == a);
    } else if content == "```\n"@ + a + "\n```"@ {
        let open = "```\n"@;
        assert(content.subrange(0, 4) =~= open);
        assert(first_at(content, open, 0) == Some(0int));
        let rest = content.skip(4);
        assert(rest =~= Seq::<char>::empty() + a + "\n```"@);
        lemma_closing_fence(Seq::empty(), a);
        assert(fenced(content, open) == Some(a));
        let tag = "```json"@;
        lemma_first_at(content, tag, 0);
        lemma_first_at(rest, "```"@, 0);
        assert forall|j: int| 0 <= j implies !occurs_at(content, tag, j) by {
            if occurs_at(content, tag, j) {
                assert(content.subrange(j, j + 7)[0] == content[j]);
                assert(content.subrange(j, j + 7)[1] == content[j + 1]);
                assert(content.subrange(j, j + 7)[2] == content[j + 2]);
                assert(content.subrange(j, j + 7)[3] == content[j + 3]);
                assert(content[3] == '\n');
                assert(j >= 4);
                assert(rest.subrange(j - 4, j - 1) =~= "```"@);
                assert(occurs_at(rest, "```"@, j - 4));
            }
        }
        assert(first_at(content, tag, 0) is None);
        assert(candidates(content)[1] == a);
    }
}

/// The JSON array in the output of a model: bare, or in a code fence, after
/// any metadata block. The same array gives the same elements bare, in a JSON
/// fence and in a fence without a language.
pub fn extract_json_array(content: &str) -> (r: Result<Vec<Json>, NotionError>)
    ensures
        match r {
            Ok(items) => first_array(candidates(trimmed(body(content@))), 0) == Some(items@),
            Err(e) => first_array(candidates(trimmed(body(content@))), 0) is None && e.is_parse(
                not_an_array(trimmed(body(content@))),
                trimmed(body(content@)),
            ),
        },
        forall|a: Seq<char>|
            bare_array(a) && #[trigger] presents(content@, a) ==> r is Ok && array_in(a) == Some(
                r->Ok_0@,
            ),
{
    let answer = trim(strip_frontmatter(content).as_str());
    let texts = json_candidates(answer.as_str());
    let ghost all = candidates(answer@);
    assert forall|a: Seq<char>| bare_array(a) && #[trigger] presents(content@, a) implies all[0]
        == a || all[0].len() > 0 && all[0][0] == '`' && all.len() > 1 && all[1] == a by {
        lemma_presented(content@, a);
    }
    let mut i: usize = 0;
    while i < texts.len()
        invariant
            i <= texts@.len(),
            views(texts@) == all,
            all == candidates(trimmed(body(content@))),
            first_array(all, 0) == first_array(all, i as int),
            all.len() > 0,
            forall|a: Seq<char>|
                bare_array(a) && #[trigger] presents(content@, a) ==> all[0] == a || all[0].len()
                    > 0 && all[0][0] == '`' && all.len() > 1 && all[1] == a,
            all[0].len() > 0 && all[0][0] == '`' && i > 0 ==> first_array(all, 0) == first_array(
                all,
                1,
            ),
        decreases texts@.len() - i,
    {
        assert(all[i as int] == texts@[i as int]@);
        match parse_array(texts[i].as_str()) {
            Some(items) => {
                proof {
                    reveal_with_fuel(first_array, 2);
                }
                return Ok(items);
            },
            None => {},
        }
        i += 1;
    }
    let message = crate::text::joined(
        "Notion connector: could not parse LLM output as JSON array.\nExpected a JSON array like: [{\"Title\": \"...\", ...}]\nRaw LLM output (first 500 chars): ",
        take(answer.as_str(), 500).as_str(),
    );
    Err(NotionError { kind: NotionErrorKind::JsonParse { message, raw_output: answer } })
}

/// Whether the connector can write a property of this type.
pub open spec fn writable(property_type: Seq<char>) -> bool {
    ||| property_type == "title"@
    ||| property_type == "rich_text"@
    ||| property_type == "select"@
    ||| property_type == "multi_select"@
    ||| property_type == "people"@
    ||| property_type == "date"@
    ||| property_type == "number"@
    ||| property_type == "checkbox"@
    ||| property_type == "url"@
    ||| property_type == "email"@
    ||| property_type == "phone_number"@
    ||| property_type == "status"@
}

/// Whether the connector can write a property of this type.
pub fn is_writable(property_type: &str) -> (r: bool)
    ensures
        r == writable(property_type@),
{
    same(property_type, "title") || same(property_type, "rich_text") || same(
        property_type,
        "select",
    ) || same(property_type, "multi_select") || same(property_type, "people") || same(
        property_type,
        "date",
    ) || same(property_type, "number") || same(property_type, "checkbox") || same(
        property_type,
        "url",
    ) || same(property_type, "email") || same(property_type, "phone_number") || same(
        property_type,
        "status",
    )
}

/// The names of the properties, among the first `n`, that can be written,
/// each once.
pub open spec fn writable_names(properties: Seq<NotionProperty>, n: int) -> Seq<Seq<char>>
    decreases n,
{
    if n <= 0 {
        Seq::empty()
    } else {
        let before = writable_names(properties, n - 1);
        let p = properties[n - 1];
        if writable(p.property_type@) && !before.contains(p.name@) {
            before.push(p.name@)
        } else {
            before
        }
    }
}

/// The keys of an object.
pub open spec fn keys(entries: Seq<(String, Json)>) -> Seq<Seq<char>> {
    entries.map_values(|e: (String, Json)| e.0@)
}

/// Some key of the object is one of the names.
pub open spec fn shares_key(entries: Seq<(String, Json)>, names: Seq<Seq<char>>) -> bool {
    exists|i: int| 0 <= i < entries.len() && names.contains(#[trigger] entries[i].0@)
}

/// What is wrong with element `idx` of the array, if anything.
pub open spec fn element_fault(
    item: Json,
    idx: nat,
    names: Seq<Seq<char>>,
    raw: Seq<char>,
) -> Option<Seq<char>> {
    match item {
        Json::Object(entries) => if shares_key(entries@, names) {
            None
        } else {
            Some(
                "Notion connector: JSON array element "@ + decimal_of(idx)
                    + " has no keys matching the database schema.\nExpected property names: "@
                    + joined_by(names, ", "@) + "\nGot keys: "@ + joined_by(keys(entries@), ", "@)
                    + "\nRaw LLM output (first 500 chars): "@ + taken(raw, 500),
            )
        },
        _ => Some(
            "Notion connector: JSON array element "@ + decimal_of(idx)
                + " is not an object.\nExpected objects like {\"Title\": \"...\", ...}\nRaw LLM output (first 500 chars): "@
                + taken(raw, 500),
        ),
    }
}

/// The first fault of the elements from `i` on.
pub open spec fn first_fault(
    items: Seq<Json>,
    i: int,
    names: Seq<Seq<char>>,
    raw: Seq<char>,
) -> Option<Seq<char>>
    decreases items.len() - i,
{
    if i >= items.len() {
        None
    } else if element_fault(items[i], i as nat, names, raw) is Some {
        element_fault(items[i], i as nat, names, raw)
    } else {
        first_fault(items, i + 1, names, raw)
    }
}

/// What is wrong with the array as a whole, if anything.
pub open spec fn output_fault(
    items: Seq<Json>,
    profile: NotionIntegrationProfile,
    raw: Seq<char>,
) -> Option<Seq<char>> {
    if items.len() == 0 {
        Some(
            "Notion connector: LLM output parsed as empty JSON array — no pages to create.\nRaw LLM output (first 500 chars): "@
                + taken(raw, 500),
        )
    } else {
        first_fault(
            items,
            0,
            writable_names(profile.properties@, profile.properties@.len() as int),
            raw,
        )
    }
}

fn collect_writable(properties: &Vec<NotionProperty>) -> (r: Vec<String>)
    ensures
        views(r@) == writable_names(properties@, properties@.len() as int),
{
    let mut out: Vec<String> = Vec::new();
    assert(views(out@) =~= Seq::<Seq<char>>::empty());
    let mut i: usize = 0;
    while i < properties.len()
        invariant
            i <= properties@.len(),
            views(out@) == writable_names(properties@, i as int),
        decreases properties@.len() - i,
    {
        let p = &properties[i];
        if is_writable(p.property_type.as_str()) && !listed(&out, p.name.as_str()) {
            let ghost before = out@;
            out.push(p.name.clone());
            assert(views(out@) =~= views(before).push(p.name@));
        }
        i += 1;
    }
    out
}

fn key_list(entries: &Vec<(String, Json)>) -> (r: Vec<String>)
    ensures
        views(r@) == keys(entries@),
{
    let mut out: Vec<String> = Vec::new();
    let mut i: usize = 0;
    while i < entries.len()
        invariant
            i <= entries@.len(),
            views(out@) == keys(entries@).take(i as int),
        decreases entries@.len() - i,
    {
        let ghost before = out@;
        out.push(entries[i].0.clone());
        assert(views(out@) =~= views(before).push(entries@[i as int].0@));
        assert(keys(entries@).take(i as int + 1) =~= keys(entries@).take(i as int).push(
            entries@[i as int].0@,
        ));
        i += 1;
    }
    assert(keys(entries@).take(i as int) =~= keys(entries@));
    out
}

fn any_listed(entries: &Vec<(String, Json)>, names: &Vec<String>) -> (r: bool)
    ensures
        r == shares_key(entries@, views(names@)),
{
    let mut i: usize = 0;
    while i < entries.len()
        invariant
            i <= entries@.len(),
            forall|j: int| 0 <= j < i ==> !views(names@).contains(#[trigger] entries@[j].0@),
        decreases entries@.len() - i,
    {
        if listed(names, entries[i].0.as_str()) {
            return true;
        }
        i += 1;
    }
    false
}

fn find_fault(item: &Json, idx: usize, names: &Vec<String>, raw: &str) -> (r: Option<String>)
    ensures
        match r {
            Some(m) => element_fault(*item, idx as nat, views(names@), raw@) == Some(m@),
            None => element_fault(*item, idx as nat, views(names@), raw@) is None,
        },
{
    let mut m = crate::text::joined(
        "Notion connector: JSON array element ",
        decimal(idx as u64).as_str(),
    );
    match item {
        Json::Object(entries) => {
            if any_listed(entries, names) {
                return None;
            }
            m.append(" has no keys matching the database schema.\nExpected property names: ");
            m.append(join(names, ", ").as_str());
            m.append("\nGot keys: ");
            m.append(join(&key_list(entries), ", ").as_str());
            m.append("\nRaw LLM output (first 500 chars): ");
            m.append(take(raw, 500).as_str());
            Some(m)
        },
        _ => {
            m.append(
                " is not an object.\nExpected objects like {\"Title\": \"...\", ...}\nRaw LLM output (first 500 chars): ",
            );
            m.append(take(raw, 500).as_str());
            Some(m)
        },
    }
}

/// Checks that there is at least one element, and that each is an object with
/// at least one key that names a writable property of the database.
pub fn validate_llm_output_for_notion(
    items: &Vec<Json>,
    profile: &NotionIntegrationProfile,
    raw_output: &str,
) -> (r: Result<(), NotionError>)
    ensures
        match r {
            Ok(_) => output_fault(items@, *profile, raw_output@) is None,
            Err(e) => output_fault(items@, *profile, raw_output@) is Some && e.is_parse(
                output_fault(items@, *profile, raw_output@)->0,
                raw_output@,
            ),
        },
{
    if items.len() == 0 {
        let message = crate::text::joined(
            "Notion connector: LLM output parsed as empty JSON array — no pages to create.\nRaw LLM output (first 500 chars): ",
            take(raw_output, 500).as_str(),
        );
        return Err(
            NotionError {
                kind: NotionErrorKind::JsonParse { message, raw_output: raw_output.to_owned() },
            },
        );
    }
    let names = collect_writable(&profile.properties);
    let mut i: usize = 0;
    while i < items.len()
        invariant
            i <= items@.len(),
            items@.len() > 0,
            views(names@) == writable_names(
                profile.properties@,
                profile.properties@.len() as int,
            ),
            output_fault(items@, *profile, raw_output@) == first_fault(
                items@,
                i as int,
                views(names@),
                raw_output@,
            ),
        decreases items@.len() - i,
    {
        match find_fault(&items[i], i, &names, raw_output) {
            Some(message) => {
                return Err(
                    NotionError {
                        kind: NotionErrorKind::JsonParse {
                            message,
                            raw_output: raw_output.to_owned(),
                        },
                    },
                );
            },
            None => {},
        }
        i += 1;
    }
    Ok(())
}

/// The properties of that name.
pub open spec fn property_named(name: Seq<char>) -> spec_fn(NotionProperty) -> bool {
    |p: NotionProperty| p.name@ == name
}

/// The options that differ from `value` at most in ASCII case.
pub open spec fn option_alike(value: Seq<char>) -> spec_fn(String) -> bool {
    |o: String| ascii_lower(o@) == ascii_lower(value)
}

/// The option of the property `name` that `value` means: the first that
/// differs from it at most in case, else `value` itself.
pub open spec fn canonical(
    value: Seq<char>,
    name: Seq<char>,
    profile: NotionIntegrationProfile,
) -> Seq<char> {
    match first_index(profile.properties@, property_named(name), 0) {
        Some(i) => {
            let options = profile.properties@[i].select_options@;
            match first_index(options, option_alike(value), 0) {
                Some(j) => options[j]@,
                None => value,
            }
        },
        None => value,
    }
}

fn matching_option(options: &Vec<String>, value: &str) -> (r: String)
    ensures
        r@ == match first_index(options@, option_alike(value@), 0) {
            Some(j) => options@[j]@,
            None => value@,
        },
{
    let mut i: usize = 0;
    while i < options.len()
        invariant
            i <= options@.len(),
            first_index(options@, option_alike(value@), 0) == first_index(
                options@,
                option_alike(value@),
                i as int,
            ),
        decreases options@.len() - i,
    {
        if alike(options[i].as_str(), value) {
            return options[i].clone();
        }
        i += 1;
    }
    value.to_owned()
}

/// Resolves a select or status value against the known options of the
/// property, without regard to ASCII case.
pub fn resolve_select_value(
    value: &str,
    property_name: &str,
    profile: &NotionIntegrationProfile,
) -> (r: String)
    ensures
        r@ == canonical(value@, property_name@, *profile),
{
    let mut i: usize = 0;
    while i < profile.properties.len()
        invariant
            i <= profile.properties@.len(),
            first_index(profile.properties@, property_named(property_name@), 0) == first_index(
                profile.properties@,
                property_named(property_name@),
                i as int,
            ),
        decreases profile.properties@.len() - i,
    {
        if same(profile.properties[i].name.as_str(), property_name) {
            return matching_option(&profile.properties[i].select_options, value);
        }
        i += 1;
    }
    value.to_owned()
}

/// A person to assign: identifier and display name.
#[derive(Debug)]
pub struct Person {
    pub id: String,
    pub name: String,
}

/// The mappings whose alias differs from `alias` at most in ASCII case.
pub open spec fn alias_alike(alias: Seq<char>) -> spec_fn(PersonMapping) -> bool {
    |m: PersonMapping| ascii_lower(m.alias@) == ascii_lower(alias)
}

/// The person that an alias names, if it is a text and known.
pub open spec fn person_of(
    alias: Json,
    profile: NotionIntegrationProfile,
) -> Option<(Seq<char>, Seq<char>)> {
    match alias.text() {
        Some(t) => match first_index(profile.people_mappings@, alias_alike(t), 0) {
            Some(i) => Some(
                (
                    profile.people_mappings@[i].notion_user_id@,
                    profile.people_mappings@[i].display_name@,
                ),
            ),
            None => None,
        },
        None => None,
    }
}

/// The persons that the first `n` aliases name, in order; unknown ones are
/// left out.
pub open spec fn people_of(
    aliases: Seq<Json>,
    n: int,
    profile: NotionIntegrationProfile,
) -> Seq<(Seq<char>, Seq<char>)>
    decreases n,
{
    if n <= 0 {
        Seq::empty()
    } else {
        let before = people_of(aliases, n - 1, profile);
        match person_of(aliases[n - 1], profile) {
            Some(p) => before.push(p),
            None => before,
        }
    }
}

/// Identifiers and names of persons.
pub open spec fn people_view(people: Seq<Person>) -> Seq<(Seq<char>, Seq<char>)> {
    people.map_values(|p: Person| (p.id@, p.name@))
}

fn resolve_alias(alias: &Json, profile: &NotionIntegrationProfile) -> (r: Option<Person>)
    ensures
        match r {
            Some(p) => person_of(*alias, *profile) == Some((p.id@, p.name@)),
            None => person_of(*alias, *profile) is None,
        },
{
    let t = match alias.as_text() {
        Some(t) => t,
        None => {
            return None;
        },
    };
    let mut i: usize = 0;
    while i < profile.people_mappings.len()
        invariant
            i <= profile.people_mappings@.len(),
            alias.text() == Some(t@),
            first_index(profile.people_mappings@, alias_alike(t@), 0) == first_index(
                profile.people_mappings@,
                alias_alike(t@),
                i as int,
            ),
        decreases profile.people_mappings@.len() - i,
    {
        if alike(profile.people_mappings[i].alias.as_str(), t.as_str()) {
            let m = &profile.people_mappings[i];
            return Some(Person { id: m.notion_user_id.clone(), name: m.display_name.clone() });
        }
        i += 1;
    }
    None
}

/// Resolves aliases to persons. Aliases that match no mapping are skipped.
pub fn resolve_people_aliases(
    aliases: &Vec<Json>,
    profile: &NotionIntegrationProfile,
) -> (r: Vec<Person>)
    ensures
        people_view(r@) == people_of(aliases@, aliases@.len() as int, *profile),
{
    let mut out: Vec<Person> = Vec::new();
    assert(people_view(out@) =~= Seq::empty());
    let mut i: usize = 0;
    while i < aliases.len()
        invariant
            i <= aliases@.len(),
            people_view(out@) == people_of(aliases@, i as int, *profile),
        decreases aliases@.len() - i,
    {
        match resolve_alias(&aliases[i], profile) {
            Some(p) => {
                let ghost before = out@;
                let ghost v = (p.id@, p.name@);
                out.push(p);
                assert(people_view(out@) =~= people_view(before).push(v));
            },
            None => {},
        }
        i += 1;
    }
    out
}

/// When a date property is: a day, or an instant.
#[derive(Clone, Copy, Debug, PartialEq, Eq, Structural)]
pub enum DateValue {
    Date(Day),
    DateTime(Instant),
}

/// The value of a page property.
#[derive(Debug)]
pub enum PageProperty {
    Title(String),
    RichText(String),
    Select(String),
    MultiSelect(Vec<String>),
    People(Vec<Person>),
    Date(DateValue),
    Number(JsonNumber),
    Checkbox(bool),
    Url(Option<String>),
    Email(Option<String>),
    PhoneNumber(Option<String>),
    Status(String),
}

/// The value of a page property, in mathematical terms. A number is told by
/// how it is written.
pub enum PropertyView {
    Title(Seq<char>),
    RichText(Seq<char>),
    Select(Seq<char>),
    MultiSelect(Seq<Seq<char>>),
    People(Seq<(Seq<char>, Seq<char>)>),
    Date(DateValue),
    Number(Seq<char>),
    Checkbox(bool),
    Url(Option<Seq<char>>),
    Email(Option<Seq<char>>),
    PhoneNumber(Option<Seq<char>>),
    Status(Seq<char>),
}

/// The text of an optional string.
pub open spec fn opt_view(s: Option<String>) -> Option<Seq<char>> {
    match s {
        Some(t) => Some(t@),
        None => None,
    }
}

impl View for PageProperty {
    type V = PropertyView;

    open spec fn view(&self) -> PropertyView {
        match *self {
            PageProperty::Title(t) => PropertyView::Title(t@),
            PageProperty::RichText(t) => PropertyView::RichText(t@),
            PageProperty::Select(t) => PropertyView::Select(t@),
            PageProperty::MultiSelect(v) => PropertyView::MultiSelect(views(v@)),
            PageProperty::People(v) => PropertyView::People(people_view(v@)),
            PageProperty::Date(d) => PropertyView::Date(d),
            PageProperty::Number(n) => PropertyView::Number(n.text@),
            PageProperty::Checkbox(b) => PropertyView::Checkbox(b),
            PageProperty::Url(t) => PropertyView::Url(opt_view(t)),
            PageProperty::Email(t) => PropertyView::Email(opt_view(t)),
            PageProperty::PhoneNumber(t) => PropertyView::PhoneNumber(opt_view(t)),
            PageProperty::Status(t) => PropertyView::Status(t@),
        }
    }
}

/// What a JSON value means for a property of the schema: nothing to send, a
/// value, or a failure.
pub enum Outcome {
    Skip,
    Put(PropertyView),
    Fail(Seq<char>),
}

/// The text of a value, empty where it is none.
pub open spec fn text_or_empty(value: Json) -> Seq<char> {
    match value.text() {
        Some(t) => t,
        None => Seq::empty(),
    }
}

/// The canonical options that the texts among the first `n` elements mean.
pub open spec fn options_of(
    items: Seq<Json>,
    n: int,
    name: Seq<char>,
    profile: NotionIntegrationProfile,
) -> Seq<Seq<char>>
    decreases n,
{
    if n <= 0 {
        Seq::empty()
    } else {
        let before = options_of(items, n - 1, name, profile);
        match items[n - 1].text() {
            Some(t) => before.push(canonical(t, name, profile)),
            None => before,
        }
    }
}

/// What a multi-select value means.
pub open spec fn multi_select_of(
    value: Json,
    name: Seq<char>,
    profile: NotionIntegrationProfile,
) -> Seq<Seq<char>> {
    match value {
        Json::List(items) => options_of(items@, items@.len() as int, name, profile),
        Json::Text(s) => seq![canonical(s@, name, profile)],
        _ => Seq::empty(),
    }
}

/// Whom a people value means.
pub open spec fn people_in(
    value: Json,
    profile: NotionIntegrationProfile,
) -> Seq<(Seq<char>, Seq<char>)> {
    match value {
        Json::List(items) => people_of(items@, items@.len() as int, profile),
        Json::Text(_) => match person_of(value, profile) {
            Some(p) => seq![p],
            None => Seq::empty(),
        },
        _ => Seq::empty(),
    }
}

/// What a date value means: with a `T` in it an instant, else a day.
pub open spec fn date_outcome(text: Seq<char>) -> Outcome {
    if occurs(text, "T"@) {
        match utc_result(text) {
            Ok(t) => Outcome::Put(PropertyView::Date(DateValue::DateTime(t))),
            Err(e) => Outcome::Fail("Invalid datetime '"@ + text + "': "@ + e),
        }
    } else {
        match day_result(text, "%Y-%m-%d"@) {
            Ok(d) => Outcome::Put(PropertyView::Date(DateValue::Date(d))),
            Err(e) => Outcome::Fail("Invalid date '"@ + text + "': "@ + e),
        }
    }
}

/// What a JSON value means for the property `def`.
pub open spec fn outcome(
    value: Json,
    def: NotionProperty,
    profile: NotionIntegrationProfile,
) -> Outcome {
    let kind = def.property_type@;
    if value is Null {
        Outcome::Skip
    } else if kind == "title"@ {
        Outcome::Put(PropertyView::Title(text_or_empty(value)))
    } else if kind == "rich_text"@ {
        Outcome::Put(PropertyView::RichText(text_or_empty(value)))
    } else if kind == "select"@ {
        Outcome::Put(PropertyView::Select(canonical(text_or_empty(value), def.name@, profile)))
    } else if kind == "multi_select"@ {
        Outcome::Put(PropertyView::MultiSelect(multi_select_of(value, def.name@, profile)))
    } else if kind == "people"@ {
        // An empty list would clear the people who are assigned already.
        if people_in(value, profile).len() == 0 {
            Outcome::Skip
        } else {
            Outcome::Put(PropertyView::People(people_in(value, profile)))
        }
    } else if kind == "date"@ {
        date_outcome(text_or_empty(value))
    } else if kind == "number"@ {
        match value {
            Json::Number(n) => Outcome::Put(PropertyView::Number(n.text@)),
            _ => Outcome::Skip,
        }
    } else if kind == "checkbox"@ {
        Outcome::Put(PropertyView::Checkbox(value == Json::Bool(true)))
    } else if kind == "url"@ {
        Outcome::Put(PropertyView::Url(value.text()))
    } else if kind == "email"@ {
        Outcome::Put(PropertyView::Email(value.text()))
    } else if kind == "phone_number"@ {
        Outcome::Put(PropertyView::PhoneNumber(value.text()))
    } else if kind == "status"@ {
        Outcome::Put(PropertyView::Status(canonical(text_or_empty(value), def.name@, profile)))
    } else {
        Outcome::Skip
    }
}

fn text_of_value(value: &Json) -> (r: String)
    ensures
        r@ == text_or_empty(*value),
{
    match value.as_text() {
        Some(t) => t.clone(),
        None => String::new(),
    }
}

fn optional_text(value: &Json) -> (r: Option<String>)
    ensures
        opt_view(r) == value.text(),
{
    match value.as_text() {
        Some(t) => Some(t.clone()),
        None => None,
    }
}

fn map_options(items: &Vec<Json>, name: &str, profile: &NotionIntegrationProfile) -> (r: Vec<String>)
    ensures
        views(r@) == options_of(items@, items@.len() as int, name@, *profile),
{
    let mut out: Vec<String> = Vec::new();
    assert(views(out@) =~= Seq::empty());
    let mut i: usize = 0;
    while i < items.len()
        invariant
            i <= items@.len(),
            views(out@) == options_of(items@, i as int, name@, *profile),
        decreases items@.len() - i,
    {
        match items[i].as_text() {
            Some(t) => {
                let ghost before = out@;
                out.push(resolve_select_value(t.as_str(), name, profile));
                assert(views(out@) =~= views(before).push(canonical(t@, name@, *profile)));
            },
            None => {},
        }
        i += 1;
    }
    out
}

fn map_multi_select(value: &Json, name: &str, profile: &NotionIntegrationProfile) -> (r: Vec<String>)
    ensures
        views(r@) == multi_select_of(*value, name@, *profile),
{
    match value {
        Json::List(items) => map_options(items, name, profile),
        Json::Text(s) => {
            let mut out: Vec<String> = Vec::new();
            out.push(resolve_select_value(s.as_str(), name, profile));
            assert(views(out@) =~= seq![canonical(s@, name@, *profile)]);
            out
        },
        _ => {
            let out: Vec<String> = Vec::new();
            assert(views(out@) =~= Seq::empty());
            out
        },
    }
}

fn map_people(value: &Json, profile: &NotionIntegrationProfile) -> (r: Vec<Person>)
    ensures
        people_view(r@) == people_in(*value, *profile),
        r@.len() == people_in(*value, *profile).len(),
{
    let mut out: Vec<Person> = Vec::new();
    assert(people_view(out@) =~= Seq::empty());
    match value {
        Json::List(items) => {
            out = resolve_people_aliases(items, profile);
        },
        Json::Text(_) => {
            match resolve_alias(value, profile) {
                Some(p) => {
                    let ghost v = (p.id@, p.name@);
                    out.push(p);
                    assert(people_view(out@) =~= seq![v]);
                },
                None => {},
            }
        },
        _ => {},
    }
    assert(people_view(out@).len() == out@.len());
    out
}

fn map_date(text: &str) -> (r: Result<PageProperty, NotionError>)
    ensures
        match r {
            Ok(p) => date_outcome(text@) == Outcome::Put(p@),
            Err(e) => date_outcome(text@) is Fail && e.is_other(date_outcome(text@)->Fail_0),
        },
{
    if holds(text, "T") {
        match parse_utc(text) {
            Ok(t) => Ok(PageProperty::Date(DateValue::DateTime(t))),
            Err(e) => {
                let mut m = joined3("Invalid datetime '", text, "': ");
                m.append(e.as_str());
                Err(other(m))
            },
        }
    } else {
        match parse_day(text, "%Y-%m-%d") {
            Ok(d) => Ok(PageProperty::Date(DateValue::Date(d))),
            Err(e) => {
                let mut m = joined3("Invalid date '", text, "': ");
                m.append(e.as_str());
                Err(other(m))
            },
        }
    }
}

/// What a JSON value means for the property `def`: a value to send, nothing,
/// or a failure.
pub fn map_property(
    value: &Json,
    def: &NotionProperty,
    profile: &NotionIntegrationProfile,
) -> (r: Result<Option<PageProperty>, NotionError>)
    ensures
        match r {
            Ok(Some(p)) => outcome(*value, *def, *profile) == Outcome::Put(p@),
            Ok(None) => outcome(*value, *def, *profile) == Outcome::Skip,
            Err(e) => outcome(*value, *def, *profile) is Fail && e.is_other(
                outcome(*value, *def, *profile)->Fail_0,
            ),
        },
{
    let kind = def.property_type.as_str();
    let name = def.name.as_str();
    match value {
        Json::Null => {
            return Ok(None);
        },
        _ => {},
    }
    if same(kind, "title") {
        Ok(Some(PageProperty::Title(text_of_value(value))))
    } else if same(kind, "rich_text") {
        Ok(Some(PageProperty::RichText(text_of_value(value))))
    } else if same(kind, "select") {
        let t = text_of_value(value);
        Ok(Some(PageProperty::Select(resolve_select_value(t.as_str(), name, profile))))
    } else if same(kind, "multi_select") {
        Ok(Some(PageProperty::MultiSelect(map_multi_select(value, name, profile))))
    } else if same(kind, "people") {
        let people = map_people(value, profile);
        if people.len() == 0 {
            Ok(None)
        } else {
            Ok(Some(PageProperty::People(people)))
        }
    } else if same(kind, "date") {
        match map_date(text_of_value(value).as_str()) {
            Ok(p) => Ok(Some(p)),
            Err(e) => Err(e),
        }
    } else if same(kind, "number") {
        match value {
            Json::Number(n) => Ok(
                Some(
                    PageProperty::Number(
                        JsonNumber { text: n.text.clone(), unsigned: n.unsigned },
                    ),
                ),
            ),
            _ => Ok(None),
        }
    } else if same(kind, "checkbox") {
        let checked = match value {
            Json::Bool(b) => *b,
            _ => false,
        };
        Ok(Some(PageProperty::Checkbox(checked)))
    } else if same(kind, "url") {
        Ok(Some(PageProperty::Url(optional_text(value))))
    } else if same(kind, "email") {
        Ok(Some(PageProperty::Email(optional_text(value))))
    } else if same(kind, "phone_number") {
        Ok(Some(PageProperty::PhoneNumber(optional_text(value))))
    } else if same(kind, "status") {
        let t = text_of_value(value);
        Ok(Some(PageProperty::Status(resolve_select_value(t.as_str(), name, profile))))
    } else {
        Ok(None)
    }
}

/// `properties` with the value `p` under `name`, in place of what is there.
pub open spec fn placed(
    properties: Seq<(Seq<char>, PropertyView)>,
    name: Seq<char>,
    p: PropertyView,
) -> Seq<(Seq<char>, PropertyView)> {
    if exists|k: int| 0 <= k < properties.len() && (#[trigger] properties[k]).0 == name {
        properties.map_values(
            |e: (Seq<char>, PropertyView)|
                if e.0 == name {
                    (name, p)
                } else {
                    e
                },
        )
    } else {
        properties.push((name, p))
    }
}

/// No name stands twice.
pub open spec fn names_differ(properties: Seq<(Seq<char>, PropertyView)>) -> bool {
    forall|i: int, j: int|
        0 <= i < j < properties.len() ==> (#[trigger] properties[i]).0 != (
        #[trigger] properties[j]).0
}

fn place(properties: &mut Vec<(String, PageProperty)>, name: &str, p: PageProperty)
    requires
        names_differ(page_view(old(properties)@)),
    ensures
        page_view(final(properties)@) == placed(page_view(old(properties)@), name@, p@),
        names_differ(page_view(final(properties)@)),
{
    let ghost before = page_view(properties@);
    let ghost now = placed(before, name@, p@);
    let mut i: usize = 0;
    while i < properties.len()
        invariant
            i <= properties@.len(),
            before == page_view(properties@),
            before == page_view(old(properties)@),
            names_differ(before),
            now == placed(before, name@, p@),
            forall|k: int| 0 <= k < i ==> (#[trigger] before[k]).0 != name@,
        decreases properties@.len() - i,
    {
        assert(before[i as int] == (properties@[i as int].0@, properties@[i as int].1@));
        if same(properties[i].0.as_str(), name) {
            assert(before[i as int].0 == name@);
            let ghost v = p@;
            properties.set(i, (name.to_owned(), p));
            assert forall|k: int| 0 <= k < before.len() && k != i implies (#[trigger] before[k]).0
                != name@ by {
                assert(before[i as int].0 == name@);
            }
            assert(page_view(properties@) =~= before.update(i as int, (name@, v)));
            assert(page_view(properties@) =~= now);
            return;
        }
        i += 1;
    }
    let ghost v = p@;
    properties.push((name.to_owned(), p));
    assert(page_view(properties@) =~= before.push((name@, v)));
}

/// The values for the first `n` properties of the schema, in its order, or
/// the first failure. Of two properties of one name the later one counts.
pub open spec fn mapped(
    entries: Seq<(String, Json)>,
    n: int,
    profile: NotionIntegrationProfile,
) -> Result<Seq<(Seq<char>, PropertyView)>, Seq<char>>
    decreases n,
{
    if n <= 0 {
        Ok(Seq::empty())
    } else {
        let def = profile.properties@[n - 1];
        match mapped(entries, n - 1, profile) {
            Err(m) => Err(m),
            Ok(before) => match entry_of(entries, def.name@) {
                None => Ok(before),
                Some(value) => match outcome(value, def, profile) {
                    Outcome::Skip => Ok(before),
                    Outcome::Put(p) => Ok(placed(before, def.name@, p)),
                    Outcome::Fail(m) => Err(m),
                },
            },
        }
    }
}

/// The values for all properties of the schema; it is a failure if there are none.
pub open spec fn page_of(
    item: Json,
    profile: NotionIntegrationProfile,
) -> Result<Seq<(Seq<char>, PropertyView)>, Seq<char>> {
    match item {
        Json::Object(entries) => match mapped(
            entries@,
            profile.properties@.len() as int,
            profile,
        ) {
            Ok(all) => if all.len() == 0 {
                Err(
                    "No properties could be mapped from LLM output to Notion schema. Verify the integration profile is synced (Settings > Integrations > Sync Schema), and that the LLM output contains at least one key matching a writable property name."@,
                )
            } else {
                Ok(all)
            },
            Err(m) => Err(m),
        },
        _ => Err(
            "JSON item is not an object — expected a JSON object with property names as keys"@,
        ),
    }
}

/// Names and values of properties.
pub open spec fn page_view(properties: Seq<(String, PageProperty)>) -> Seq<
    (Seq<char>, PropertyView),
> {
    properties.map_values(|p: (String, PageProperty)| (p.0@, p.1@))
}

proof fn lemma_mapped_fails(
    entries: Seq<(String, Json)>,
    i: int,
    n: int,
    profile: NotionIntegrationProfile,
)
    requires
        i <= n,
        mapped(entries, i, profile) is Err,
    ensures
        mapped(entries, n, profile) == mapped(entries, i, profile),
    decreases n - i,
{
    if i < n {
        lemma_mapped_fails(entries, i, n - 1, profile);
    }
}

fn map_entries(
    entries: &Vec<(String, Json)>,
    profile: &NotionIntegrationProfile,
) -> (r: Result<Vec<(String, PageProperty)>, NotionError>)
    ensures
        match r {
            Ok(all) => mapped(entries@, profile.properties@.len() as int, *profile) == Ok::<
                Seq<(Seq<char>, PropertyView)>,
                Seq<char>,
            >(page_view(all@)) && names_differ(page_view(all@)),
            Err(e) => mapped(entries@, profile.properties@.len() as int, *profile) is Err
                && e.is_other(
                mapped(entries@, profile.properties@.len() as int, *profile)->Err_0,
            ),
        },
{
    let mut out: Vec<(String, PageProperty)> = Vec::new();
    assert(page_view(out@) =~= Seq::empty());
    let mut i: usize = 0;
    while i < profile.properties.len()
        invariant
            i <= profile.properties@.len(),
            mapped(entries@, i as int, *profile) == Ok::<
                Seq<(Seq<char>, PropertyView)>,
                Seq<char>,
            >(page_view(out@)),
            names_differ(page_view(out@)),
        decreases profile.properties@.len() - i,
    {
        let def = &profile.properties[i];
        match lookup(entries, def.name.as_str()) {
            Some(value) => match map_property(value, def, profile) {
                Ok(Some(p)) => {
                    place(&mut out, def.name.as_str(), p);
                },
                Ok(None) => {},
                Err(e) => {
                    proof {
                        lemma_mapped_fails(
                            entries@,
                            i as int + 1,
                            profile.properties@.len() as int,
                            *profile,
                        );
                    }
                    return Err(e);
                },
            },
            None => {},
        }
        i += 1;
    }
    Ok(out)
}

/// The properties of the page for one element of the array. Only properties of
/// the schema are sent, in its order, each once.
pub fn build_notion_properties(
    item: &Json,
    profile: &NotionIntegrationProfile,
) -> (r: Result<Vec<(String, PageProperty)>, NotionError>)
    ensures
        match r {
            Ok(all) => page_of(*item, *profile) == Ok::<
                Seq<(Seq<char>, PropertyView)>,
                Seq<char>,
            >(page_view(all@)) && names_differ(page_view(all@)),
            Err(e) => page_of(*item, *profile) is Err && e.is_other(
                page_of(*item, *profile)->Err_0,
            ),
        },
{
    match item {
        Json::Object(entries) => match map_entries(entries, profile) {
            Ok(all) => {
                assert(page_view(all@).len() == all@.len());
                if all.len() == 0 {
                    Err(
                        other(
                            "No properties could be mapped from LLM output to Notion schema. Verify the integration profile is synced (Settings > Integrations > Sync Schema), and that the LLM output contains at least one key matching a writable property name.".to_owned(),
                        ),
                    )
                } else {
                    Ok(all)
                }
            },
            Err(e) => Err(e),
        },
        _ => Err(
            other(
                "JSON item is not an object — expected a JSON object with property names as keys".to_owned(),
            ),
        ),
    }
}

/// The pages of one run: the elements of the array and the identifiers of the
/// pages created so far, one for each of the first elements.
#[derive(Debug)]
pub struct NotionRun {
    pub integration_id: String,
    pub profile: NotionIntegrationProfile,
    pub items: Vec<Json>,
    pub page_ids: Vec<String>,
}

/// What a run does next.
#[derive(Debug)]
pub enum NotionStep {
    /// Create a page with these properties.
    Create(Vec<(String, PageProperty)>),
    /// Stop: the next element has no page.
    Fail(NotionError),
    /// Every element has its page.
    Done,
}

impl NotionRun {
    /// No more pages than elements.
    pub open spec fn wf(self) -> bool {
        self.page_ids@.len() <= self.items@.len()
    }

    /// Reads the output of the model and checks it against the schema.
    pub fn begin(
        integration_id: String,
        profile: NotionIntegrationProfile,
        raw: &str,
    ) -> (r: Result<NotionRun, NotionError>)
        ensures
            match r {
                Ok(run) => {
                    &&& run.wf()
                    &&& run.integration_id == integration_id
                    &&& run.profile == profile
                    &&& first_array(candidates(trimmed(body(raw@))), 0) == Some(run.items@)
                    &&& output_fault(run.items@, profile, raw@) is None
                    &&& run.page_ids@.len() == 0
                },
                Err(e) => match first_array(candidates(trimmed(body(raw@))), 0) {
                    None => e.is_parse(
                        not_an_array(trimmed(body(raw@))),
                        trimmed(body(raw@)),
                    ),
                    Some(items) => output_fault(items, profile, raw@) is Some && e.is_parse(
                        output_fault(items, profile, raw@)->0,
                        raw@,
                    ),
                },
            },
    {
        match extract_json_array(raw) {
            Ok(items) => match validate_llm_output_for_notion(&items, &profile, raw) {
                Ok(_) => Ok(NotionRun { integration_id, profile, items, page_ids: Vec::new() }),
                Err(e) => Err(e),
            },
            Err(e) => Err(e),
        }
    }

    /// What to do next: one page for each element, in order.
    pub fn next(&self) -> (r: NotionStep)
        requires
            self.wf(),
        ensures
            r is Done <==> self.page_ids@.len() == self.items@.len(),
            match r {
                NotionStep::Create(all) => page_of(
                    self.items@[self.page_ids@.len() as int],
                    self.profile,
                ) == Ok::<Seq<(Seq<char>, PropertyView)>, Seq<char>>(page_view(all@)),
                NotionStep::Fail(e) => page_of(
                    self.items@[self.page_ids@.len() as int],
                    self.profile,
                ) is Err && e.is_other(
                    page_of(self.items@[self.page_ids@.len() as int], self.profile)->Err_0,
                ),
                NotionStep::Done => true,
            },
    {
        if self.page_ids.len() == self.items.len() {
            return NotionStep::Done;
        }
        match build_notion_properties(&self.items[self.page_ids.len()], &self.profile) {
            Ok(all) => NotionStep::Create(all),
            Err(e) => NotionStep::Fail(e),
        }
    }

    /// Records the page that was created for the next element.
    pub fn created(&mut self, page_id: String)
        requires
            old(self).wf(),
            old(self).page_ids@.len() < old(self).items@.len(),
        ensures
            final(self).wf(),
            final(self).page_ids@ == old(self).page_ids@.push(page_id),
            final(self).items == old(self).items,
            final(self).profile == old(self).profile,
            final(self).integration_id == old(self).integration_id,
    {
        self.page_ids.push(page_id);
    }
}

/// What is said of the pages that were created.
pub open spec fn pages_summary(page_ids: Seq<Seq<char>>) -> Seq<char> {
    if page_ids.len() == 0 {
        "No pages created (empty input array)"@
    } else {
        "Created "@ + decimal_of(page_ids.len()) + " Notion page(s): "@ + joined_by(
            page_ids,
            ", "@,
        )
    }
}

/// The description of a step, with a default.
pub open spec fn described(description: Option<&str>) -> Seq<char> {
    match description {
        Some(d) => d@,
        None => "Create Notion pages"@,
    }
}

/// The metadata that every artifact of the connector has.
pub open spec fn artifact_fields(
    step_name: Seq<char>,
    description: Seq<char>,
    input_step: Seq<char>,
    status: Seq<char>,
    now: Seq<char>,
    integration_id: Seq<char>,
    pages: nat,
    error: Seq<char>,
) -> Seq<(Seq<char>, Seq<char>)> {
    seq![
        ("name"@, step_name),
        ("description"@, quoted(description)),
        ("connector"@, "notion"@),
        ("input"@, input_step),
        ("status"@, status),
        ("created_at"@, now),
        ("completed_at"@, now),
        ("integration_id"@, integration_id),
        ("pages_created"@, decimal_of(pages)),
        ("error"@, error),
    ]
}

fn write_head(
    step_name: &str,
    description: Option<&str>,
    input_step: &str,
    status: &str,
    now: &str,
    integration_id: &str,
    pages: usize,
    error: &str,
) -> (r: Vec<String>)
    ensures
        views(r@) == entries_of(
            artifact_fields(
                step_name@,
                described(description),
                input_step@,
                status@,
                now@,
                integration_id@,
                pages as nat,
                error@,
            ),
        ),
{
    let shown = match description {
        Some(d) => d,
        None => "Create Notion pages",
    };
    let mut head: Vec<String> = Vec::new();
    head.push(write_entry("name", step_name));
    head.push(write_quoted("description", shown));
    head.push(write_entry("connector", "notion"));
    head.push(write_entry("input", input_step));
    head.push(write_entry("status", status));
    head.push(write_entry("created_at", now));
    head.push(write_entry("completed_at", now));
    head.push(write_entry("integration_id", integration_id));
    head.push(write_entry("pages_created", decimal(pages as u64).as_str()));
    head.push(write_entry("error", error));
    assert(views(head@) =~= entries_of(
        artifact_fields(
            step_name@,
            described(description),
            input_step@,
            status@,
            now@,
            integration_id@,
            pages as nat,
            error@,
        ),
    ));
    head
}

/// The artifact of a step that succeeded.
pub fn success_output(
    step_name: &str,
    description: Option<&str>,
    input_step: &str,
    now: &str,
    integration_id: &str,
    page_ids: &Vec<String>,
) -> (r: String)
    ensures
        r@ == artifact(
            entries_of(
                artifact_fields(
                    step_name@,
                    described(description),
                    input_step@,
                    "done"@,
                    now@,
                    integration_id@,
                    page_ids@.len(),
                    "null"@,
                ),
            ),
            pages_summary(views(page_ids@)) + "\n"@,
        ),
{
    let head = write_head(
        step_name,
        description,
        input_step,
        "done",
        now,
        integration_id,
        page_ids.len(),
        "null",
    );
    assert(views(page_ids@).len() == page_ids@.len());
    let mut summary = if page_ids.len() == 0 {
        "No pages created (empty input array)".to_owned()
    } else {
        joined(
            joined3(
                "Created ",
                decimal(page_ids.len() as u64).as_str(),
                " Notion page(s): ",
            ).as_str(),
            join(page_ids, ", ").as_str(),
        )
    };
    summary.append("\n");
    write_artifact(&head, summary.as_str())
}

/// The body of the artifact of a step that failed.
pub open spec fn failure_body(message: Seq<char>, raw: Option<&str>) -> Seq<char> {
    match raw {
        Some(r) => "## Error\n"@ + message + "\n\n## Raw AI Output\n"@ + r@ + "\n"@,
        None => "## Error\n"@ + message + "\n"@,
    }
}

/// The artifact of a step that failed, with the output of the model where it
/// is known.
pub fn failure_output(
    step_name: &str,
    description: Option<&str>,
    input_step: &str,
    now: &str,
    integration_id: &str,
    error_message: &str,
    raw_llm_output: Option<&str>,
) -> (r: String)
    ensures
        r@ == artifact(
            entries_of(
                artifact_fields(
                    step_name@,
                    described(description),
                    input_step@,
                    "failed"@,
                    now@,
                    integration_id@,
                    0,
                    quoted(one_line(error_message@)),
                ),
            ),
            failure_body(error_message@, raw_llm_output),
        ),
{
    let escaped = escape_line(error_message);
    let error = joined3("\"", escaped.as_str(), "\"");
    let head = write_head(
        step_name,
        description,
        input_step,
        "failed",
        now,
        integration_id,
        0,
        error.as_str(),
    );
    let mut body = joined("## Error\n", error_message);
    match raw_llm_output {
        Some(raw) => {
            body.append("\n\n## Raw AI Output\n");
            body.append(raw);
            body.append("\n");
        },
        None => {
            body.append("\n");
        },
    }
    write_artifact(&head, body.as_str())
}

/// The integration that the artifact of a step that failed names.
pub open spec fn named_integration(config: Json) -> Seq<char> {
    match config.member_text("integration_id"@) {
        Some(id) => id,
        None => "unknown"@,
    }
}

/// The artifact and the message of a step that failed for good.
pub fn preserve_failure_at(
    config: &Json,
    step_name: &str,
    description: Option<&str>,
    input_step: &str,
    error: &NotionError,
    raw_llm_output: Option<&str>,
    now: &str,
) -> (r: (String, String))
    ensures
        r.1@ == error.message(),
        r.0@ == artifact(
            entries_of(
                artifact_fields(
                    step_name@,
                    described(description),
                    input_step@,
                    "failed"@,
                    now@,
                    named_integration(*config),
                    0,
                    quoted(one_line(error.message())),
                ),
            ),
            failure_body(error.message(), raw_llm_output),
        ),
{
    let message = error.to_text();
    let id = match config.get_text("integration_id") {
        Some(id) => id.as_str(),
        None => "unknown",
    };
    let document = failure_output(
        step_name,
        description,
        input_step,
        now,
        id,
        message.as_str(),
        raw_llm_output,
    );
    (document, message)
}

/// The artifact of a step that failed reads back as failed, with its error; that of one
/// that succeeded reads back as done, without one. What goes into the metadata stands on
/// one line, without `---`.
pub proof fn law_outcome_reads_back(
    step_name: Seq<char>,
    description: Seq<char>,
    input_step: Seq<char>,
    status: Seq<char>,
    now: Seq<char>,
    integration_id: Seq<char>,
    pages: nat,
    error: Seq<char>,
    body: Seq<char>,
)
    requires
        status == "done"@ && error == "null"@ || status == "failed"@ && exists|m: Seq<char>|
            error == #[trigger] quoted(m),
        ({
            let fields = artifact_fields(
                step_name,
                description,
                input_step,
                status,
                now,
                integration_id,
                pages,
                error,
            );
            one_line_each(fields)
        }),
    ensures
        ({
            let fields = artifact_fields(
                step_name,
                description,
                input_step,
                status,
                now,
                integration_id,
                pages,
                error,
            );
            let report = reported(artifact(entries_of(fields), body));
            &&& report.status == status
            &&& report.error == if status == "done"@ {
                None
            } else {
                Some(stripped(error, "\""@))
            }
            &&& report.output == if trimmed(body).len() == 0 {
                None
            } else {
                Some(trimmed(body))
            }
        }),
{
    let fields = artifact_fields(
        step_name,
        description,
        input_step,
        status,
        now,
        integration_id,
        pages,
        error,
    );
    lemma_keys();
    law_artifact_reads_back(fields, body);
    reveal_strlit("done");
    reveal_strlit("failed");
    reveal_strlit("null");
    assert(trimmed("done"@) =~= "done"@);
    assert(trimmed("failed"@) =~= "failed"@);
    assert(trimmed("null"@) =~= "null"@);
    assert("done"@.len() != "failed"@.len());
    if status == "failed"@ {
        let m = choose|m: Seq<char>| error == #[trigger] quoted(m);
        lemma_quoted(m);
    }
    reveal_with_fuel(field_in, 11);
}

/// Only properties of the schema are sent, and only those that the element has.
pub proof fn law_page_within_schema(item: Json, profile: NotionIntegrationProfile, i: int)
    requires
        page_of(item, profile) is Ok,
        0 <= i < page_of(item, profile)->Ok_0.len(),
    ensures
        item.member(page_of(item, profile)->Ok_0[i].0) is Some,
        exists|j: int|
            0 <= j < profile.properties@.len() && (#[trigger] profile.properties@[j]).name@
                == page_of(item, profile)->Ok_0[i].0 && writable(
                profile.properties@[j].property_type@,
            ),
{
    match item {
        Json::Object(entries) => {
            lemma_mapped_origin(entries@, profile.properties@.len() as int, profile, i);
        },
        _ => {},
    }
}

proof fn lemma_mapped_origin(
    entries: Seq<(String, Json)>,
    n: int,
    profile: NotionIntegrationProfile,
    i: int,
)
    requires
        0 <= n <= profile.properties@.len(),
        mapped(entries, n, profile) is Ok,
        0 <= i < mapped(entries, n, profile)->Ok_0.len(),
    ensures
        entry_of(entries, mapped(entries, n, profile)->Ok_0[i].0) is Some,
        exists|j: int|
            0 <= j < n && (#[trigger] profile.properties@[j]).name@ == mapped(
                entries,
                n,
                profile,
            )->Ok_0[i].0 && writable(profile.properties@[j].property_type@),
    decreases n,
{
    if n > 0 {
        let before = mapped(entries, n - 1, profile)->Ok_0;
        if i < before.len() {
            lemma_mapped_origin(entries, n - 1, profile, i);
            assert(mapped(entries, n, profile)->Ok_0[i].0 == before[i].0);
        } else {
            assert(profile.properties@[n - 1].name@ == mapped(entries, n, profile)->Ok_0[i].0);
        }
    }
}

/// Resolving a resolved option changes nothing.
pub proof fn law_canonical_is_stable(
    value: Seq<char>,
    name: Seq<char>,
    profile: NotionIntegrationProfile,
)
    ensures
        canonical(canonical(value, name, profile), name, profile) == canonical(
            value,
            name,
            profile,
        ),
{
    match first_index(profile.properties@, property_named(name), 0) {
        Some(i) => {
            let options = profile.properties@[i].select_options@;
            crate::seqs::lemma_first_index(options, option_alike(value), 0);
            match first_index(options, option_alike(value), 0) {
                Some(j) => {
                    crate::seqs::lemma_first_index_same(
                        options,
                        option_alike(value),
                        option_alike(options[j]@),
                        0,
                    );
                },
                None => {},
            }
        },
        None => {},
    }
}

/// The types of properties that are written.
pub proof fn law_writable_types(t: Seq<char>)
    ensures
        writable(t) <==> (t == "title"@ || t == "rich_text"@ || t == "select"@ || t
            == "multi_select"@ || t == "people"@ || t == "date"@ || t == "number"@ || t
            == "checkbox"@ || t == "url"@ || t == "email"@ || t == "phone_number"@ || t
            == "status"@),
{
}

proof fn lemma_writable_names(properties: Seq<NotionProperty>, n: int, name: Seq<char>)
    requires
        0 <= n <= properties.len(),
    ensures
        writable_names(properties, n).contains(name) <==> exists|j: int|
            0 <= j < n && (#[trigger] properties[j]).name@ == name && writable(
                properties[j].property_type@,
            ),
    decreases n,
{
    if n > 0 {
        lemma_writable_names(properties, n - 1, name);
        let before = writable_names(properties, n - 1);
        let all = writable_names(properties, n);
        let p = properties[n - 1];
        if before.contains(name) {
            let k = choose|k: int| 0 <= k < before.len() && before[k] == name;
            assert(all[k] == name);
            let j = choose|j: int|
                0 <= j < n - 1 && (#[trigger] properties[j]).name@ == name && writable(
                    properties[j].property_type@,
                );
            assert(properties[j].name@ == name);
        } else {
            if all.contains(name) {
                let k = choose|k: int| 0 <= k < all.len() && all[k] == name;
                if k < before.len() {
                    assert(before[k] == name);
                }
                assert(properties[n - 1].name@ == name);
            }
            if exists|j: int|
                0 <= j < n && (#[trigger] properties[j]).name@ == name && writable(
                    properties[j].property_type@,
                ) {
                let j = choose|j: int|
                    0 <= j < n && (#[trigger] properties[j]).name@ == name && writable(
                        properties[j].property_type@,
                    );
                assert(j == n - 1);
                assert(all[before.len() as int] == name);
            }
        }
    }
}

/// An element of the array can become a page: it is an object, and a property that can be
/// written has the name of one of its keys.
pub open spec fn fits_schema(item: Json, properties: Seq<NotionProperty>) -> bool {
    item matches Json::Object(e) && exists|k: int, j: int|
        0 <= k < e@.len() && 0 <= j < properties.len() && (#[trigger] e@[k]).0@ == (
        #[trigger] properties[j]).name@ && writable(properties[j].property_type@)
}

/// An array is accepted exactly if it has an element and each of them fits the schema.
pub proof fn law_output_is_accepted(
    items: Seq<Json>,
    profile: NotionIntegrationProfile,
    raw: Seq<char>,
)
    ensures
        output_fault(items, profile, raw) is None <==> items.len() > 0 && forall|i: int|
            0 <= i < items.len() ==> fits_schema(#[trigger] items[i], profile.properties@),
{
    let names = writable_names(profile.properties@, profile.properties@.len() as int);
    lemma_first_fault(items, 0, profile, raw);
}

proof fn lemma_element(item: Json, i: nat, profile: NotionIntegrationProfile, raw: Seq<char>)
    ensures
        ({
            let names = writable_names(profile.properties@, profile.properties@.len() as int);
            element_fault(item, i, names, raw) is None <==> fits_schema(item, profile.properties@)
        }),
{
    let properties = profile.properties@;
    let names = writable_names(properties, properties.len() as int);
    match item {
        Json::Object(e) => {
            if shares_key(e@, names) {
                let k = choose|k: int| 0 <= k < e@.len() && names.contains(#[trigger] e@[k].0@);
                lemma_writable_names(properties, properties.len() as int, e@[k].0@);
                let j = choose|j: int|
                    0 <= j < properties.len() && (#[trigger] properties[j]).name@ == e@[k].0@
                        && writable(properties[j].property_type@);
                assert(e@[k].0@ == properties[j].name@);
            }
            if fits_schema(item, properties) {
                let (k, j) = choose|k: int, j: int|
                    0 <= k < e@.len() && 0 <= j < properties.len() && (#[trigger] e@[k]).0@ == (
                    #[trigger] properties[j]).name@ && writable(properties[j].property_type@);
                lemma_writable_names(properties, properties.len() as int, e@[k].0@);
                assert(properties[j].name@ == e@[k].0@);
                assert(names.contains(e@[k].0@));
            }
        },
        _ => {},
    }
}

proof fn lemma_first_fault(
    items: Seq<Json>,
    from: int,
    profile: NotionIntegrationProfile,
    raw: Seq<char>,
)
    requires
        0 <= from,
    ensures
        ({
            let names = writable_names(profile.properties@, profile.properties@.len() as int);
            first_fault(items, from, names, raw) is None <==> forall|i: int|
                from <= i < items.len() ==> fits_schema(#[trigger] items[i], profile.properties@)
        }),
    decreases items.len() - from,
{
    if from < items.len() {
        lemma_element(items[from], from as nat, profile, raw);
        lemma_first_fault(items, from + 1, profile, raw);
    }
}

/// A value of a select or status property becomes the option that differs from it at most
/// in case, the first of them, of the property of that name; without such an option it
/// stays as it is.
pub proof fn law_canonical_option(
    value: Seq<char>,
    name: Seq<char>,
    profile: NotionIntegrationProfile,
    i: int,
)
    requires
        0 <= i < profile.properties@.len(),
        profile.properties@[i].name@ == name,
        forall|j: int| 0 <= j < i ==> (#[trigger] profile.properties@[j]).name@ != name,
    ensures
        ({
            let options = profile.properties@[i].select_options@;
            &&& forall|k: int|
                0 <= k < options.len() && ascii_lower((#[trigger] options[k])@) == ascii_lower(
                    value,
                ) && (forall|j: int|
                    0 <= j < k ==> ascii_lower((#[trigger] options[j])@) != ascii_lower(value))
                    ==> canonical(value, name, profile) == options[k]@
            &&& (forall|k: int|
                0 <= k < options.len() ==> ascii_lower((#[trigger] options[k])@) != ascii_lower(
                    value,
                )) ==> canonical(value, name, profile) == value
        }),
{
    let properties = profile.properties@;
    let options = properties[i].select_options@;
    crate::seqs::lemma_first_index(properties, property_named(name), 0);
    crate::seqs::lemma_first_index(options, option_alike(value), 0);
    assert(property_named(name)(properties[i]));
    match first_index(properties, property_named(name), 0) {
        Some(a) => {
            assert(property_named(name)(properties[a]));
            if a < i {
                assert(properties[a].name@ != name);
            }
            if i < a {
                assert(!property_named(name)(properties[i]));
            }
            assert(a == i);
        },
        None => {
            assert(!property_named(name)(properties[i]));
        },
    }
    assert forall|k: int|
        0 <= k < options.len() && ascii_lower((#[trigger] options[k])@) == ascii_lower(value) && (
        forall|j: int| 0 <= j < k ==> ascii_lower((#[trigger] options[j])@) != ascii_lower(value))
        implies canonical(value, name, profile) == options[k]@ by {
        assert(option_alike(value)(options[k]));
        match first_index(options, option_alike(value), 0) {
            Some(b) => {
                assert(option_alike(value)(options[b]));
                if b < k {
                    assert(ascii_lower(options[b]@) != ascii_lower(value));
                }
                if k < b {
                    assert(!option_alike(value)(options[k]));
                }
            },
            None => {
                assert(!option_alike(value)(options[k]));
            },
        }
    }
    if forall|k: int|
        0 <= k < options.len() ==> ascii_lower((#[trigger] options[k])@) != ascii_lower(value) {
        match first_index(options, option_alike(value), 0) {
            Some(b) => {
                assert(option_alike(value)(options[b]));
            },
            None => {},
        }
    }
}

/// An alias names the person of the first mapping whose alias differs from it at most in
/// case; what is no text, or maps to nobody, names no one.
pub proof fn law_alias_names_a_person(alias: Json, profile: NotionIntegrationProfile)
    ensures
        !(alias is Text) ==> person_of(alias, profile) is None,
        alias matches Json::Text(t) ==> {
            let all = profile.people_mappings@;
            &&& forall|k: int|
                0 <= k < all.len() && ascii_lower((#[trigger] all[k]).alias@) == ascii_lower(t@)
                    && (forall|j: int|
                    0 <= j < k ==> ascii_lower((#[trigger] all[j]).alias@) != ascii_lower(t@))
                    ==> person_of(alias, profile) == Some(
                    (all[k].notion_user_id@, all[k].display_name@),
                )
            &&& (forall|k: int|
                0 <= k < all.len() ==> ascii_lower((#[trigger] all[k]).alias@) != ascii_lower(t@))
                ==> person_of(alias, profile) is None
        },
{
    match alias {
        Json::Text(t) => {
            let all = profile.people_mappings@;
            let p = alias_alike(t@);
            crate::seqs::lemma_first_index(all, p, 0);
            assert forall|k: int|
                0 <= k < all.len() && ascii_lower((#[trigger] all[k]).alias@) == ascii_lower(t@)
                    && (forall|j: int|
                    0 <= j < k ==> ascii_lower((#[trigger] all[j]).alias@) != ascii_lower(t@))
                implies person_of(alias, profile) == Some(
                (all[k].notion_user_id@, all[k].display_name@),
            ) by {
                assert(p(all[k]));
                match first_index(all, p, 0) {
                    Some(b) => {
                        assert(p(all[b]));
                        if b < k {
                            assert(ascii_lower(all[b].alias@) != ascii_lower(t@));
                        }
                        if k < b {
                            assert(!p(all[k]));
                        }
                    },
                    None => {
                        assert(!p(all[k]));
                    },
                }
            }
            match first_index(all, p, 0) {
                Some(b) => {
                    assert(p(all[b]));
                },
                None => {},
            }
        },
        _ => {},
    }
}

/// People and options are taken in the order of the list; one more element adds what it
/// names at the end, or nothing.
pub proof fn law_lists_keep_their_order(
    items: Seq<Json>,
    last: Json,
    name: Seq<char>,
    profile: NotionIntegrationProfile,
)
    ensures
        ({
            let n = items.len() as int;
            let all = items.push(last);
            &&& people_of(Seq::<Json>::empty(), 0, profile).len() == 0
            &&& people_of(all, n + 1, profile) == match person_of(last, profile) {
                Some(p) => people_of(items, n, profile).push(p),
                None => people_of(items, n, profile),
            }
            &&& options_of(Seq::<Json>::empty(), 0, name, profile).len() == 0
            &&& options_of(all, n + 1, name, profile) == match last {
                Json::Text(t) => options_of(items, n, name, profile).push(
                    canonical(t@, name, profile),
                ),
                _ => options_of(items, n, name, profile),
            }
        }),
{
    lemma_lists_same(items, items.push(last), name, profile, items.len() as int);
}

proof fn lemma_lists_same(
    a: Seq<Json>,
    b: Seq<Json>,
    name: Seq<char>,
    profile: NotionIntegrationProfile,
    n: int,
)
    requires
        n <= a.len(),
        n <= b.len(),
        forall|i: int| 0 <= i < n ==> a[i] == b[i],
    ensures
        people_of(a, n, profile) == people_of(b, n, profile),
        options_of(a, n, name, profile) == options_of(b, n, name, profile),
    decreases n,
{
    if n > 0 {
        lemma_lists_same(a, b, name, profile, n - 1);
        assert(a[n - 1] == b[n - 1]);
    }
}

/// What a value becomes goes by the type of the property: texts stay texts, options and
/// people are looked up, a number and a date keep what they say, and a box is checked by
/// `true` alone. Null is never sent, nor is an empty list of people.
pub proof fn law_values_by_type(
    value: Json,
    def: NotionProperty,
    profile: NotionIntegrationProfile,
)
    ensures
        ({
            let kind = def.property_type@;
            let name = def.name@;
            let r = outcome(value, def, profile);
            &&& value is Null ==> r is Skip
            &&& !writable(kind) ==> r is Skip
            &&& value matches Json::Text(t) ==> {
                &&& kind == "title"@ ==> r == Outcome::Put(PropertyView::Title(t@))
                &&& kind == "rich_text"@ ==> r == Outcome::Put(PropertyView::RichText(t@))
                &&& kind == "select"@ ==> r == Outcome::Put(
                    PropertyView::Select(canonical(t@, name, profile)),
                )
                &&& kind == "status"@ ==> r == Outcome::Put(
                    PropertyView::Status(canonical(t@, name, profile)),
                )
                &&& kind == "url"@ ==> r == Outcome::Put(PropertyView::Url(Some(t@)))
                &&& kind == "email"@ ==> r == Outcome::Put(PropertyView::Email(Some(t@)))
                &&& kind == "phone_number"@ ==> r == Outcome::Put(
                    PropertyView::PhoneNumber(Some(t@)),
                )
                &&& kind == "checkbox"@ ==> r == Outcome::Put(PropertyView::Checkbox(false))
                &&& kind == "number"@ ==> r is Skip
                &&& kind == "multi_select"@ ==> r == Outcome::Put(
                    PropertyView::MultiSelect(seq![canonical(t@, name, profile)]),
                )
                &&& kind == "people"@ ==> r == match person_of(value, profile) {
                    Some(p) => Outcome::Put(PropertyView::People(seq![p])),
                    None => Outcome::Skip,
                }
                &&& kind == "date"@ && t@.contains('T') ==> match utc_result(t@) {
                    Ok(at) => r == Outcome::Put(PropertyView::Date(DateValue::DateTime(at))),
                    Err(_) => r is Fail,
                }
                &&& kind == "date"@ && !t@.contains('T') ==> match day_result(t@, "%Y-%m-%d"@) {
                    Ok(day) => r == Outcome::Put(PropertyView::Date(DateValue::Date(day))),
                    Err(_) => r is Fail,
                }
            }
            &&& value matches Json::Number(n) ==> (kind == "number"@ ==> r == Outcome::Put(
                PropertyView::Number(n.text@),
            ))
            &&& value matches Json::Bool(b) ==> (kind == "checkbox"@ ==> r == Outcome::Put(
                PropertyView::Checkbox(b),
            ))
            &&& value matches Json::List(items) ==> {
                &&& kind == "multi_select"@ ==> r == Outcome::Put(
                    PropertyView::MultiSelect(
                        options_of(items@, items@.len() as int, name, profile),
                    ),
                )
                &&& kind == "people"@ ==> r == (if people_of(
                    items@,
                    items@.len() as int,
                    profile,
                ).len() == 0 {
                    Outcome::Skip
                } else {
                    Outcome::Put(
                        PropertyView::People(people_of(items@, items@.len() as int, profile)),
                    )
                })
            }
        }),
{
    lemma_kinds_differ();
    reveal_strlit("T");
    match value {
        Json::Text(t) => {
            if t@.contains('T') {
                let i = choose|i: int| 0 <= i < t@.len() && t@[i] == 'T';
                assert(t@.subrange(i, i + 1) =~= "T"@);
                assert(occurs_at(t@, "T"@, i));
            } else if occurs(t@, "T"@) {
                let i = choose|i: int| occurs_at(t@, "T"@, i);
                assert(t@.subrange(i, i + 1)[0] == t@[i]);
            }
        },
        _ => {},
    }
}

proof fn lemma_kinds_differ()
    ensures
        "title"@ != "rich_text"@ && "title"@ != "select"@ && "title"@ != "multi_select"@,
        "title"@ != "people"@ && "title"@ != "date"@ && "title"@ != "number"@,
        "title"@ != "checkbox"@ && "title"@ != "url"@ && "title"@ != "email"@,
        "title"@ != "phone_number"@ && "title"@ != "status"@,
        "rich_text"@ != "select"@ && "rich_text"@ != "multi_select"@ && "rich_text"@ != "people"@,
        "rich_text"@ != "date"@ && "rich_text"@ != "number"@ && "rich_text"@ != "checkbox"@,
        "rich_text"@ != "url"@ && "rich_text"@ != "email"@ && "rich_text"@ != "phone_number"@,
        "rich_text"@ != "status"@,
        "select"@ != "multi_select"@ && "select"@ != "people"@ && "select"@ != "date"@,
        "select"@ != "number"@ && "select"@ != "checkbox"@ && "select"@ != "url"@,
        "select"@ != "email"@ && "select"@ != "phone_number"@ && "select"@ != "status"@,
        "multi_select"@ != "people"@ && "multi_select"@ != "date"@ && "multi_select"@ != "number"@,
        "multi_select"@ != "checkbox"@ && "multi_select"@ != "url"@ && "multi_select"@ != "email"@,
        "multi_select"@ != "phone_number"@ && "multi_select"@ != "status"@,
        "people"@ != "date"@ && "people"@ != "number"@ && "people"@ != "checkbox"@,
        "people"@ != "url"@ && "people"@ != "email"@ && "people"@ != "phone_number"@,
        "people"@ != "status"@,
        "date"@ != "number"@ && "date"@ != "checkbox"@ && "date"@ != "url"@ && "date"@ != "email"@,
        "date"@ != "phone_number"@ && "date"@ != "status"@,
        "number"@ != "checkbox"@ && "number"@ != "url"@ && "number"@ != "email"@,
        "number"@ != "phone_number"@ && "number"@ != "status"@,
        "checkbox"@ != "url"@ && "checkbox"@ != "email"@ && "checkbox"@ != "phone_number"@,
        "checkbox"@ != "status"@,
        "url"@ != "email"@ && "url"@ != "phone_number"@ && "url"@ != "status"@,
        "email"@ != "phone_number"@ && "email"@ != "status"@,
        "phone_number"@ != "status"@,
{
    reveal_strlit("title");
    reveal_strlit("rich_text");
    reveal_strlit("select");
    reveal_strlit("multi_select");
    reveal_strlit("people");
    reveal_strlit("date");
    reveal_strlit("number");
    reveal_strlit("checkbox");
    reveal_strlit("url");
    reveal_strlit("email");
    reveal_strlit("phone_number");
    reveal_strlit("status");
    assert("title"@.len() == 5 && "title"@[0] == 't');
    assert("rich_text"@.len() == 9);
    assert("select"@.len() == 6 && "select"@[1] == 'e');
    assert("multi_select"@.len() == 12 && "multi_select"@[0] == 'm');
    assert("people"@.len() == 6 && "people"@[0] == 'p');
    assert("date"@.len() == 4);
    assert("number"@.len() == 6 && "number"@[0] == 'n');
    assert("checkbox"@.len() == 8);
    assert("url"@.len() == 3);
    assert("email"@.len() == 5 && "email"@[0] == 'e');
    assert("phone_number"@.len() == 12 && "phone_number"@[0] == 'p');
    assert("status"@.len() == 6 && "status"@[0] == 's' && "status"@[1] == 't');
    assert("select"@[0] == 's');
}

/// Every property of the schema that the element has a value for is on the page, with that
/// value; of several properties of one name, that of the last.
pub proof fn law_page_has_every_value(
    entries: Vec<(String, Json)>,
    profile: NotionIntegrationProfile,
    i: int,
    value: Json,
    v: PropertyView,
)
    requires
        page_of(Json::Object(entries), profile) is Ok,
        0 <= i < profile.properties@.len(),
        entry_of(entries@, profile.properties@[i].name@) == Some(value),
        outcome(value, profile.properties@[i], profile) == Outcome::Put(v),
        forall|j: int|
            i < j < profile.properties@.len() ==> (#[trigger] profile.properties@[j]).name@
                != profile.properties@[i].name@,
    ensures
        page_of(Json::Object(entries), profile)->Ok_0.contains((profile.properties@[i].name@, v)),
{
    lemma_mapped_has(entries@, profile.properties@.len() as int, profile, i, value, v);
}

proof fn lemma_mapped_has(
    entries: Seq<(String, Json)>,
    n: int,
    profile: NotionIntegrationProfile,
    i: int,
    value: Json,
    v: PropertyView,
)
    requires
        0 <= i < n <= profile.properties@.len(),
        mapped(entries, n, profile) is Ok,
        entry_of(entries, profile.properties@[i].name@) == Some(value),
        outcome(value, profile.properties@[i], profile) == Outcome::Put(v),
        forall|j: int|
            i < j < n ==> (#[trigger] profile.properties@[j]).name@
                != profile.properties@[i].name@,
    ensures
        mapped(entries, n, profile)->Ok_0.contains((profile.properties@[i].name@, v)),
    decreases n,
{
    let name = profile.properties@[i].name@;
    let before = mapped(entries, n - 1, profile)->Ok_0;
    let all = mapped(entries, n, profile)->Ok_0;
    if i == n - 1 {
        if exists|k: int| 0 <= k < before.len() && (#[trigger] before[k]).0 == name {
            let k = choose|k: int| 0 <= k < before.len() && (#[trigger] before[k]).0 == name;
            assert(all[k] == (name, v));
        } else {
            assert(all[before.len() as int] == (name, v));
        }
    } else {
        lemma_mapped_has(entries, n - 1, profile, i, value, v);
        let k = choose|k: int| 0 <= k < before.len() && before[k] == (name, v);
        assert(profile.properties@[n - 1].name@ != name);
        assert(before[k].0 == name);
        assert(all[k] == (name, v));
    }
}

/// A value that cannot be sent fails the page, with what is said of the first such one.
pub proof fn law_bad_value_fails_the_page(
    entries: Vec<(String, Json)>,
    profile: NotionIntegrationProfile,
    i: int,
    value: Json,
    message: Seq<char>,
)
    requires
        0 <= i < profile.properties@.len(),
        entry_of(entries@, profile.properties@[i].name@) == Some(value),
        outcome(value, profile.properties@[i], profile) == Outcome::Fail(message),
        forall|j: int|
            0 <= j < i && entry_of(entries@, (#[trigger] profile.properties@[j]).name@) is Some
                ==> !(outcome(
                entry_of(entries@, profile.properties@[j].name@)->0,
                profile.properties@[j],
                profile,
            ) is Fail),
    ensures
        page_of(Json::Object(entries), profile) == Err::<
            Seq<(Seq<char>, PropertyView)>,
            Seq<char>,
        >(message),
{
    lemma_mapped_fine(entries@, i, profile);
    lemma_mapped_fails(entries@, i + 1, profile.properties@.len() as int, profile);
}

proof fn lemma_mapped_fine(
    entries: Seq<(String, Json)>,
    n: int,
    profile: NotionIntegrationProfile,
)
    requires
        0 <= n <= profile.properties@.len(),
        forall|j: int|
            0 <= j < n && entry_of(entries, (#[trigger] profile.properties@[j]).name@) is Some
                ==> !(outcome(
                entry_of(entries, profile.properties@[j].name@)->0,
                profile.properties@[j],
                profile,
            ) is Fail),
    ensures
        mapped(entries, n, profile) is Ok,
    decreases n,
{
    if n > 0 {
        lemma_mapped_fine(entries, n - 1, profile);
        let def = profile.properties@[n - 1];
        assert(entry_of(entries, def.name@) is Some ==> !(outcome(
            entry_of(entries, def.name@)->0,
            def,
            profile,
        ) is Fail));
    }
}

/// A text with a `T` in it is read as an instant, any other as a day; what cannot be read
/// is a failure.
pub proof fn law_dates(text: Seq<char>, at: Instant, day: Day)
    ensures
        text.contains('T') && utc_result(text) == Ok::<Instant, Seq<char>>(at) ==> date_outcome(
            text,
        ) == Outcome::Put(PropertyView::Date(DateValue::DateTime(at))),
        !text.contains('T') && day_result(text, "%Y-%m-%d"@) == Ok::<Day, Seq<char>>(day)
            ==> date_outcome(text) == Outcome::Put(PropertyView::Date(DateValue::Date(day))),
        text.contains('T') && utc_result(text) is Err ==> date_outcome(text) is Fail,
        !text.contains('T') && day_result(text, "%Y-%m-%d"@) is Err ==> date_outcome(text) is Fail,
{
    reveal_strlit("T");
    let t = "T"@;
    if text.contains('T') {
        let i = choose|i: int| 0 <= i < text.len() && text[i] == 'T';
        assert(text.subrange(i, i + 1) =~= t);
        assert(occurs_at(text, t, i));
    } else if occurs(text, t) {
        let i = choose|i: int| occurs_at(text, t, i);
        assert(text.subrange(i, i + 1)[0] == text[i]);
        assert(text.contains('T'));
    }
}

/// The first text that is an array is taken, and none exactly if none is one.
pub proof fn law_first_array(texts: Seq<Seq<char>>, from: int, i: int)
    requires
        0 <= from <= i <= texts.len(),
        forall|j: int| from <= j < i ==> array_in(#[trigger] texts[j]) is None,
    ensures
        i < texts.len() && array_in(texts[i]) is Some ==> first_array(texts, from) == array_in(
            texts[i],
        ),
        i == texts.len() ==> first_array(texts, from) is None,
    decreases i - from,
{
    if from < i {
        assert(array_in(texts[from]) is None);
        law_first_array(texts, from + 1, i);
    }
}

/// What stands in a fence is found whatever is said before and behind it; the whole answer
/// is tried first, then a fence for JSON, then one without a language.
pub proof fn law_fence_in_prose(front: Seq<char>, x: Seq<char>, rest: Seq<char>)
    requires
        !front.contains('`'),
        !x.contains('`'),
    ensures
        fenced(front + "```json"@ + x + "```"@ + rest, "```json"@) == Some(trimmed(x)),
        fenced(front + "```\n"@ + x + "```"@ + rest, "```\n"@) == Some(trimmed(x)),
        candidates(front + "```json"@ + x + "```"@ + rest).len() >= 2,
        candidates(front + "```json"@ + x + "```"@ + rest)[0] == front + "```json"@ + x + "```"@
            + rest,
        candidates(front + "```json"@ + x + "```"@ + rest)[1] == trimmed(x),
        candidates(front)[0] == front,
        candidates(front).len() == 1,
{
    reveal_strlit("```json");
    reveal_strlit("```\n");
    reveal_strlit("```");
    lemma_fence(front, "```json"@, x, rest);
    lemma_fence(front, "```\n"@, x, rest);
    lemma_first_at(front, "```json"@, 0);
    lemma_first_at(front, "```\n"@, 0);
    if first_at(front, "```json"@, 0) is Some {
        let i = first_at(front, "```json"@, 0)->0;
        assert(front.subrange(i, i + 7)[0] == front[i]);
        assert(front.contains(front[i]));
    }
    if first_at(front, "```\n"@, 0) is Some {
        let i = first_at(front, "```\n"@, 0)->0;
        assert(front.subrange(i, i + 4)[0] == front[i]);
        assert(front.contains(front[i]));
    }
}

proof fn lemma_found(s: Seq<char>, pat: Seq<char>, from: int, n: int)
    requires
        0 <= from <= n,
        occurs_at(s, pat, n),
        pat.len() > 0,
        forall|j: int| from <= j < n ==> #[trigger] s[j] != pat[0],
    ensures
        first_at(s, pat, from) == Some(n),
    decreases n - from,
{
    if from < n {
        assert(s[from] != pat[0]);
        if occurs_at(s, pat, from) {
            assert(s.subrange(from, from + pat.len())[0] == s[from]);
        }
        lemma_found(s, pat, from + 1, n);
    }
}

proof fn lemma_first_here(a: Seq<char>, pat: Seq<char>, b: Seq<char>)
    requires
        pat.len() > 0,
        !a.contains(pat[0]),
    ensures
        first_at(a + pat + b, pat, 0) == Some(a.len() as int),
        (a + pat + b).skip(a.len() + pat.len() as int) == b,
        (a + pat + b).take(a.len() as int) == a,
{
    let s = a + pat + b;
    let n = a.len() as int;
    let m = pat.len() as int;
    assert(s.skip(n + m) =~= b);
    assert(s.take(n) =~= a);
    assert(s.subrange(n, n + m) =~= pat);
    assert forall|j: int| 0 <= j < n implies #[trigger] s[j] != pat[0] by {
        assert(a.contains(a[j]));
    }
    lemma_found(s, pat, 0, n);
}

proof fn lemma_fence(front: Seq<char>, open: Seq<char>, x: Seq<char>, rest: Seq<char>)
    requires
        !front.contains('`'),
        !x.contains('`'),
        open.len() > 0,
        open[0] == '`',
    ensures
        fenced(front + open + x + "```"@ + rest, open) == Some(trimmed(x)),
{
    let close = "```"@;
    let tail = x + close + rest;
    assert(close.len() > 0 && close[0] == '`') by {
        reveal_strlit("```");
    }
    assert(front + open + x + close + rest =~= front + open + tail);
    lemma_first_here(front, open, tail);
    lemma_first_here(x, close, rest);
}

/// A value under a name takes the place of the one before it; the others stay where they
/// are, and a new name comes last.
pub proof fn law_placed(
    properties: Seq<(Seq<char>, PropertyView)>,
    name: Seq<char>,
    p: PropertyView,
    i: int,
)
    requires
        0 <= i < properties.len(),
    ensures
        ({
            let after = placed(properties, name, p);
            &&& after.contains((name, p))
            &&& properties[i].0 == name ==> after[i] == (name, p) && after.len()
                == properties.len()
            &&& properties[i].0 != name ==> after[i] == properties[i]
        }),
        (forall|k: int| 0 <= k < properties.len() ==> (#[trigger] properties[k]).0 != name)
            ==> placed(properties, name, p) == properties.push((name, p)),
{
    let after = placed(properties, name, p);
    if exists|k: int| 0 <= k < properties.len() && (#[trigger] properties[k]).0 == name {
        let k = choose|k: int| 0 <= k < properties.len() && (#[trigger] properties[k]).0 == name;
        assert(after[k] == (name, p));
    } else {
        assert(after[properties.len() as int] == (name, p));
    }
}

/// Every page that was created is named, in order, behind how many there are.
pub proof fn law_pages_summary(ids: Seq<Seq<char>>, id: Seq<char>)
    ensures
        pages_summary(seq![id]) == "Created "@ + decimal_of(1) + " Notion page(s): "@ + id,
        ids.len() > 0 ==> pages_summary(ids.push(id)) == "Created "@ + decimal_of(
            (ids.len() + 1) as nat,
        ) + " Notion page(s): "@ + (joined_by(ids, ", "@) + ", "@ + id),
        pages_summary(Seq::<Seq<char>>::empty()) == "No pages created (empty input array)"@,
{
    crate::text::law_joined(ids, id, ", "@);
}

} // verus!
