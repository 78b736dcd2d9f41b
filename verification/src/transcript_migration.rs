//! Transcripts as documents with a metadata block.

use crate::frontmatter::{frame, framed, split, split_frontmatter};
use crate::json::{json_in, parse_known, set_member, with_member, Json};
use crate::text::{begins, occurs, same, starts, trim, trimmed};
use vstd::prelude::*;

verus! {

/// Which engine made a transcript.
#[derive(Clone, Copy, Debug, PartialEq, Eq, Structural)]
pub enum TranscriptSource {
    Local,
    Fluidaudio,
    Openai,
    Google,
    Anthropic,
    Apple,
    Unknown,
}

/// How a source is written.
pub open spec fn source_word(source: TranscriptSource) -> Seq<char> {
    match source {
        TranscriptSource::Local => "local"@,
        TranscriptSource::Fluidaudio => "fluidaudio"@,
        TranscriptSource::Openai => "openai"@,
        TranscriptSource::Google => "google"@,
        TranscriptSource::Anthropic => "anthropic"@,
        TranscriptSource::Apple => "apple"@,
        TranscriptSource::Unknown => "unknown"@,
    }
}

/// What a written source means; a word that is not known is `Unknown`.
pub open spec fn source_of(word: Seq<char>) -> TranscriptSource {
    if word == "local"@ {
        TranscriptSource::Local
    } else if word == "fluidaudio"@ {
        TranscriptSource::Fluidaudio
    } else if word == "openai"@ {
        TranscriptSource::Openai
    } else if word == "google"@ {
        TranscriptSource::Google
    } else if word == "anthropic"@ {
        TranscriptSource::Anthropic
    } else if word == "apple"@ {
        TranscriptSource::Apple
    } else {
        TranscriptSource::Unknown
    }
}

impl TranscriptSource {
    /// How the source is written.
    pub fn word(&self) -> (r: String)
        ensures
            r@ == source_word(*self),
    {
        match self {
            TranscriptSource::Local => "local".to_owned(),
            TranscriptSource::Fluidaudio => "fluidaudio".to_owned(),
            TranscriptSource::Openai => "openai".to_owned(),
            TranscriptSource::Google => "google".to_owned(),
            TranscriptSource::Anthropic => "anthropic".to_owned(),
            TranscriptSource::Apple => "apple".to_owned(),
            TranscriptSource::Unknown => "unknown".to_owned(),
        }
    }

    /// What a written source means.
    pub fn from_word(word: &str) -> (r: TranscriptSource)
        ensures
            r == source_of(word@),
    {
        if same(word, "local") {
            TranscriptSource::Local
        } else if same(word, "fluidaudio") {
            TranscriptSource::Fluidaudio
        } else if same(word, "openai") {
            TranscriptSource::Openai
        } else if same(word, "google") {
            TranscriptSource::Google
        } else if same(word, "anthropic") {
            TranscriptSource::Anthropic
        } else if same(word, "apple") {
            TranscriptSource::Apple
        } else {
            TranscriptSource::Unknown
        }
    }
}

/// A source that is written and read back is the same.
pub proof fn law_source_reads_back(source: TranscriptSource)
    ensures
        source_of(source_word(source)) == source,
{
    reveal_strlit("local");
    reveal_strlit("fluidaudio");
    reveal_strlit("openai");
    reveal_strlit("google");
    reveal_strlit("anthropic");
    reveal_strlit("apple");
    reveal_strlit("unknown");
    assert("local"@.len() == 5 && "local"@[0] == 'l');
    assert("fluidaudio"@.len() == 10);
    assert("openai"@.len() == 6 && "openai"@[0] == 'o');
    assert("google"@.len() == 6 && "google"@[0] == 'g');
    assert("anthropic"@.len() == 9);
    assert("apple"@.len() == 5 && "apple"@[0] == 'a');
    assert("unknown"@.len() == 7);
}

/// A transcript that was read: its metadata, where there was any, and its text.
#[derive(Debug)]
pub struct TranscriptData<M> {
    pub metadata: Option<M>,
    pub content: String,
}

/// The text of the metadata block in `raw`, without the white space around it.
pub open spec fn block_of(raw: Seq<char>) -> Option<Seq<char>> {
    match split(raw) {
        Some(parts) => Some(trimmed(parts.0)),
        None => None,
    }
}

/// The metadata block of a transcript, for a reader of YAML; `None` where there
/// is no block.
pub fn metadata_block(raw: &str) -> (r: Option<String>)
    ensures
        match r {
            Some(b) => block_of(raw@) == Some(b@),
            None => block_of(raw@) is None,
        },
{
    match split_frontmatter(raw) {
        Some(parts) => Some(trim(parts.0.as_str())),
        None => None,
    }
}

/// A transcript's metadata and its content, where its block means `metadata`
/// (`None` where it cannot be read).
pub open spec fn transcript_in<M>(raw: Seq<char>, metadata: Option<M>) -> (
    Option<M>,
    Seq<char>,
) {
    match (split(raw), metadata) {
        (Some(parts), Some(_)) => (metadata, trimmed(parts.1)),
        _ => (None, raw),
    }
}

/// Reads a transcript, given what its metadata block means (`None` where there
/// is no block or it cannot be read). With metadata the content is the rest,
/// without the white space around it; else all of the text.
pub fn read_transcript<M>(raw: &str, metadata: Option<M>) -> (r: TranscriptData<M>)
    ensures
        (r.metadata, r.content@) == transcript_in(raw@, metadata),
{
    match split_frontmatter(raw) {
        Some(parts) => match metadata {
            Some(m) => TranscriptData {
                metadata: Some(m),
                content: trim(parts.1.as_str()),
            },
            None => TranscriptData { metadata: None, content: raw.to_owned() },
        },
        None => TranscriptData { metadata: None, content: raw.to_owned() },
    }
}

/// The document of a transcript: the YAML of its metadata in front of its text.
pub fn write_transcript_with_metadata(content: &str, metadata_yaml: &str) -> (r: String)
    ensures
        r@ == framed(metadata_yaml@, content@),
{
    frame(metadata_yaml, content)
}

/// A transcript that is written and read back has the same metadata text and
/// the same content, but for white space around them: whatever the block means,
/// the content with no white space around it comes back unchanged.
pub proof fn law_transcript_reads_back<M>(yaml: Seq<char>, content: Seq<char>, meaning: M)
    requires
        !occurs(yaml, "---"@),
        yaml.len() > 0 ==> yaml.last() != '-',
    ensures
        block_of(framed(yaml, content)) == Some(trimmed(yaml)),
        transcript_in(framed(yaml, content), Some(meaning)) == (Some(meaning), trimmed(content)),
        content == trimmed(content) ==> transcript_in(framed(yaml, content), Some(meaning)) == (
            Some(meaning),
            content,
        ),
{
    let head = seq!['\n'] + yaml;
    assert(head[0] == '\n');
    assert(head.skip(1) =~= yaml);
    assert(crate::text::trimmed_start(head) == crate::text::trimmed_start(yaml));
    crate::frontmatter::law_split_of_framed(yaml, content);
    let rest = seq!['\n', '\n'] + content;
    assert(rest[0] == '\n' && rest[1] == '\n');
    let one = seq!['\n'] + content;
    assert(rest.skip(1) =~= one);
    assert(one.skip(1) =~= content);
    reveal_with_fuel(crate::text::trimmed_start, 3);
    assert(one[0] == '\n');
    assert(crate::text::trimmed_start(rest) == crate::text::trimmed_start(content));
}

/// Whether a stored transcript still has to be given a metadata block.
pub fn needs_migration(content: &str) -> (r: bool)
    ensures
        r == !starts(content@, "---"@),
{
    !begins(content, "---")
}

/// A migrated transcript is not migrated again.
pub proof fn law_migration_settles(yaml: Seq<char>, content: Seq<char>)
    ensures
        starts(framed(yaml, content), "---"@),
{
    reveal_strlit("---");
    reveal_strlit("---\n");
    assert(framed(yaml, content).subrange(0, 3) =~= "---"@);
}

/// The metadata that an old transcript is given.
#[derive(Debug)]
pub struct MigratedMetadata {
    pub source: TranscriptSource,
    pub model: String,
    pub created_at: String,
    pub duration_ms: u64,
    pub language: Option<String>,
}

/// The metadata that an old transcript is given: when the recording began and
/// how long it is, where that is known; else `now` and nothing.
pub fn migrated_metadata(recording: Option<(String, Option<u64>)>, now: &str) -> (r:
    MigratedMetadata)
    ensures
        r.source == TranscriptSource::Local,
        r.model@ == "unknown"@,
        r.language is Some,
        r.language->0@ == "en"@,
        match recording {
            Some(known) => r.created_at == known.0 && r.duration_ms == match known.1 {
                Some(d) => d,
                None => 0,
            },
            None => r.created_at@ == now@ && r.duration_ms == 0,
        },
{
    let (created_at, duration_ms) = match recording {
        Some(known) => (
            known.0,
            match known.1 {
                Some(d) => d,
                None => 0,
            },
        ),
        None => (now.to_owned(), 0),
    };
    MigratedMetadata {
        source: TranscriptSource::Local,
        model: "unknown".to_owned(),
        created_at,
        duration_ms,
        language: Some("en".to_owned()),
    }
}

/// Whether transcripts are still to be migrated, by the stored settings: yes,
/// unless they say that it was done.
pub open spec fn still_to_migrate(settings: Option<Json>) -> bool {
    match settings {
        Some(s) => s.member("transcript_migration_done"@) != Some(Json::Bool(true)),
        None => true,
    }
}

/// Whether transcripts are still to be migrated, by the text of the settings file, where
/// there is one.
pub fn migration_needed_in(settings: Option<&str>) -> (r: bool)
    ensures
        r == still_to_migrate(json_in(settings)),
{
    is_migration_needed(&parse_known(settings))
}

/// Whether transcripts are still to be migrated, by the stored settings.
pub fn is_migration_needed(settings: &Option<Json>) -> (r: bool)
    ensures
        r == still_to_migrate(*settings),
{
    match settings {
        Some(s) => match s.get("transcript_migration_done") {
            Some(Json::Bool(done)) => !*done,
            _ => true,
        },
        None => true,
    }
}

/// `after` is what the settings were, with the note that transcripts have been migrated.
pub open spec fn noted_as_migrated(before: Option<Json>, after: Json) -> bool {
    with_member(
        match before {
            Some(s) => s,
            None => Json::Null,
        },
        after,
        "transcript_migration_done"@,
        Json::Bool(true),
    )
}

/// The stored settings, with the note that transcripts have been migrated. Settings that
/// are not there, or cannot be read, begin anew.
pub fn mark_migration_done(settings: Option<Json>) -> (r: Json)
    requires
        settings is Some ==> settings->0 is Object || settings->0 is Null,
    ensures
        noted_as_migrated(settings, r),
{
    let stored = match settings {
        Some(s) => s,
        None => Json::Null,
    };
    set_member(stored, "transcript_migration_done", Json::Bool(true))
}

/// The text of the settings file, with the note that transcripts have been migrated.
/// `None` where the file holds a value that can have no note.
pub fn migration_done_in(settings: Option<&str>) -> (r: Option<Json>)
    ensures
        r is None == (json_in(settings) is Some && !(json_in(settings)->0 is Object)
            && !(json_in(settings)->0 is Null)),
        r is Some ==> noted_as_migrated(json_in(settings), r->0),
{
    let stored = parse_known(settings);
    match &stored {
        Some(Json::Object(_)) | Some(Json::Null) | None => {},
        _ => {
            return None;
        },
    }
    Some(mark_migration_done(stored))
}

/// A transcript without metadata that can be read is all content; with metadata the content
/// is what follows them.
pub proof fn law_transcript_without_metadata<M>(raw: Seq<char>, meaning: Option<M>)
    ensures
        !starts(raw, "---"@) ==> transcript_in(raw, meaning) == (None::<M>, raw) && block_of(raw)
            is None,
        transcript_in(raw, None::<M>) == (None::<M>, raw),
{
}

/// Once it is noted that transcripts have been migrated they are not migrated again, and
/// every other setting is as it was.
pub proof fn law_migration_is_noted(before: Option<Json>, after: Json, key: Seq<char>)
    requires
        noted_as_migrated(before, after),
    ensures
        !still_to_migrate(Some(after)),
        key != "transcript_migration_done"@ ==> after.member(key) == (match before {
            Some(s) => s.member(key),
            None => None,
        }),
        still_to_migrate(None),
{
}

} // verus!
