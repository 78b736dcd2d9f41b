//! Recordings: their metadata, and when they are kept, repaired or deleted.

use crate::ids::{new_id, uuid_shape};
use crate::json::{json_in, parse_known, Json};
use crate::paths::{path_join, under};
use crate::pipelines::PipelineState;
use crate::sorting::{sort_by_key, sorted_by};
use crate::text::{chars_of, same};
use crate::time::{is_stamp, now_stamp, parse_rfc3339, rfc3339_result, Instant};
use vstd::prelude::*;

verus! {

/// A participant of a calendar event.
#[derive(Debug)]
pub struct Attendee {
    pub name: Option<String>,
    pub email: Option<String>,
}

/// One audio file of a recording.
#[derive(Debug)]
pub struct AudioInfo {
    pub file: String,
    pub duration_ms: u64,
    pub sample_rate: u32,
    pub channels: u16,
}

/// The audio files of a recording.
#[derive(Debug)]
pub struct AudioFiles {
    pub mic: Option<AudioInfo>,
    pub system: Option<AudioInfo>,
    pub mix: Option<AudioInfo>,
}

/// Something that went wrong with a recording.
#[derive(Debug)]
pub struct RecordingIssue {
    /// "drift", "source_lost" or "error".
    pub issue_type: String,
    pub timestamp_ms: u64,
    pub message: Option<String>,
}

/// How a recording went.
#[derive(Debug)]
pub struct RecordingHealth {
    /// "ok", "warning" or "error".
    pub status: String,
    pub issues: Vec<RecordingIssue>,
}

impl Default for RecordingHealth {
    fn default() -> (r: Self)
        ensures
            r.status@.len() == 0,
            r.issues@.len() == 0,
    {
        RecordingHealth { status: String::new(), issues: Vec::new() }
    }
}

/// The metadata of a recording.
#[derive(Debug)]
pub struct RecordingMetadata {
    pub id: String,
    pub created_at: String,
    pub title: String,
    /// "recording", "processing", "ready" or "error".
    pub status: String,
    pub audio: AudioFiles,
    pub health: Option<RecordingHealth>,
    pub pipelines: Vec<PipelineState>,
    /// How the transcript begins.
    pub transcript_preview: Option<String>,
    pub app_bundle_id: Option<String>,
    /// "manual", "call" or "dictation".
    pub source: String,
    pub app_friendly_name: Option<String>,
    pub attendees: Vec<Attendee>,
    pub calendar_event_id: Option<String>,
    pub calendar_matched: bool,
}

/// The status of metadata that names none.
pub fn default_status() -> (r: String)
    ensures
        r@ == "ready"@,
{
    "ready".to_owned()
}

/// The source of metadata that names none.
pub fn default_recording_source() -> (r: String)
    ensures
        r@ == "manual"@,
{
    "manual".to_owned()
}

/// The directory of the recordings: where the settings say, else `nbp-data`
/// under the home directory.
pub open spec fn data_dir_of(home: Option<&str>, settings: Option<Json>) -> Seq<char> {
    match settings {
        Some(s) if s.member_text("storage_path"@) is Some => s.member_text("storage_path"@)->0,
        _ => match home {
            Some(h) => under(h@, "nbp-data"@),
            None => under("."@, "nbp-data"@),
        },
    }
}

/// The directory of the recordings, given the text of the settings file, where there is
/// one.
pub fn data_dir_in(home: Option<&str>, settings: Option<&str>) -> (r: String)
    ensures
        r@ == data_dir_of(home, json_in(settings)),
{
    get_data_dir(home, &parse_known(settings))
}

/// The directory of the recordings, given the settings as stored.
pub fn get_data_dir(home: Option<&str>, settings: &Option<Json>) -> (r: String)
    ensures
        r@ == data_dir_of(home, *settings),
{
    match settings {
        Some(s) => match s.get_text("storage_path") {
            Some(path) => {
                return path.clone();
            },
            None => {},
        },
        None => {},
    }
    match home {
        Some(h) => path_join(h, "nbp-data"),
        None => path_join(".", "nbp-data"),
    }
}

/// The directory of a recording.
pub fn get_recording_dir(data_dir: &str, id: &str) -> (r: String)
    ensures
        r@ == under(data_dir@, id@),
{
    path_join(data_dir, id)
}

/// Metadata of a recording that has just begun.
pub open spec fn just_begun(m: RecordingMetadata, title: Seq<char>) -> bool {
    &&& m.title@ == title
    &&& m.status@ == "recording"@
    &&& m.audio.mic is None
    &&& m.audio.system is None
    &&& m.audio.mix is None
    &&& m.health is Some
    &&& m.health->0.status@ == "ok"@
    &&& m.health->0.issues@.len() == 0
    &&& m.pipelines@.len() == 0
    &&& m.transcript_preview is None
    &&& m.app_bundle_id is None
    &&& m.source@ == "manual"@
    &&& m.app_friendly_name is None
    &&& m.attendees@.len() == 0
    &&& m.calendar_event_id is None
    &&& !m.calendar_matched
}

/// The metadata of a recording that begins under `id` at `created_at`.
pub fn begin_recording(id: String, created_at: String, title: String) -> (r: RecordingMetadata)
    ensures
        r.id == id,
        r.created_at == created_at,
        just_begun(r, title@),
{
    RecordingMetadata {
        id,
        created_at,
        title,
        status: "recording".to_owned(),
        audio: AudioFiles { mic: None, system: None, mix: None },
        health: Some(RecordingHealth { status: "ok".to_owned(), issues: Vec::new() }),
        pipelines: Vec::new(),
        transcript_preview: None,
        app_bundle_id: None,
        source: "manual".to_owned(),
        app_friendly_name: None,
        attendees: Vec::new(),
        calendar_event_id: None,
        calendar_matched: false,
    }
}

/// The metadata of a recording that begins now, under a fresh identifier.
pub fn create_recording(title: String) -> (r: RecordingMetadata)
    ensures
        uuid_shape(r.id@),
        is_stamp(r.created_at@),
        just_begun(r, title@),
{
    begin_recording(new_id(), now_stamp(), title)
}

/// Metadata with another source. Where there is none, nothing happens.
pub fn update_recording_source(
    metadata: Option<RecordingMetadata>,
    source: &str,
) -> (r: Option<RecordingMetadata>)
    ensures
        match metadata {
            Some(m) => r is Some && r->0.source@ == source@ && r->0 == (RecordingMetadata {
                source: r->0.source,
                ..m
            }),
            None => r is None,
        },
{
    match metadata {
        Some(m) => {
            let mut changed = m;
            changed.source = source.to_owned();
            Some(changed)
        },
        None => None,
    }
}

/// Metadata with another title.
pub fn update_title(metadata: RecordingMetadata, title: String) -> (r: RecordingMetadata)
    ensures
        r == (RecordingMetadata { title, ..metadata }),
{
    let mut changed = metadata;
    changed.title = title;
    changed
}

/// A capture that is running or being finished.
pub open spec fn in_flight(status: Seq<char>) -> bool {
    status == "recording"@ || status == "processing"@
}

fn is_in_flight(status: &str) -> (r: bool)
    ensures
        r == in_flight(status@),
{
    same(status, "recording") || same(status, "processing")
}

/// The instant `days` days before `now`.
pub open spec fn cutoff(now: Instant, days: u32) -> Instant {
    Instant { seconds: (now.seconds - days * 86400) as i64, nanos: now.nanos }
}

/// A recording that retention deletes: not in flight, and begun before the
/// cutoff. A date that cannot be read is never deleted.
pub open spec fn expired(m: RecordingMetadata, cutoff: Instant) -> bool {
    &&& !in_flight(m.status@)
    &&& match rfc3339_result(m.created_at@) {
        Some(t) => t.is_before(cutoff),
        None => false,
    }
}

/// Whether a recording that began at `created` (`None` if that cannot be read)
/// falls to retention.
pub fn falls_to_retention(status: &str, created: Option<Instant>, cutoff: &Instant) -> (r: bool)
    ensures
        r == (!in_flight(status@) && created is Some && created->0.is_before(*cutoff)),
{
    if is_in_flight(status) {
        return false;
    }
    match created {
        Some(t) => t.before(cutoff),
        None => false,
    }
}

/// The positions of the recordings that retention deletes. With 0 days, none.
pub fn entries_to_prune(
    recordings: &Vec<RecordingMetadata>,
    retention_days: u32,
    now: &Instant,
) -> (r: Vec<usize>)
    requires
        now.seconds >= i64::MIN + 400_000_000_000_000,
    ensures
        retention_days == 0 ==> r@.len() == 0,
        retention_days > 0 ==> forall|i: int|
            0 <= i < recordings@.len() ==> (r@.contains(i as usize) <==> expired(
                #[trigger] recordings@[i],
                cutoff(*now, retention_days),
            )),
        forall|k: int| 0 <= k < r@.len() ==> (#[trigger] r@[k]) < recordings@.len(),
        forall|j: int, k: int| 0 <= j < k < r@.len() ==> r@[j] < r@[k],
{
    let mut out: Vec<usize> = Vec::new();
    if retention_days == 0 {
        return out;
    }
    let limit = Instant {
        seconds: now.seconds - retention_days as i64 * 86400,
        nanos: now.nanos,
    };
    let n: usize = recordings.len();
    let mut i: usize = 0;
    while i < n
        invariant
            i <= n,
            n == recordings@.len(),
            retention_days > 0,
            limit == cutoff(*now, retention_days),
            forall|k: int| 0 <= k < out@.len() ==> (#[trigger] out@[k]) < i,
            forall|j: int, k: int| 0 <= j < k < out@.len() ==> out@[j] < out@[k],
            forall|k: int|
                0 <= k < i ==> (out@.contains(k as usize) <==> expired(
                    #[trigger] recordings@[k],
                    limit,
                )),
        decreases n - i,
    {
        let m = &recordings[i];
        let created = parse_rfc3339(m.created_at.as_str());
        let ghost before = out@;
        let falls = falls_to_retention(m.status.as_str(), created, &limit);
        if falls {
            out.push(i);
            assert(out@[before.len() as int] == i);
        }
        assert forall|k: int| 0 <= k < i + 1 implies (out@.contains(k as usize) <==> expired(
            #[trigger] recordings@[k],
            limit,
        )) by {
            if k < i {
                if before.contains(k as usize) {
                    let w = choose|w: int| 0 <= w < before.len() && before[w] == k as usize;
                    assert(out@[w] == k as usize);
                }
                if out@.contains(k as usize) {
                    let w = choose|w: int| 0 <= w < out@.len() && out@[w] == k as usize;
                    assert(w < before.len());
                    assert(before[w] == k as usize);
                }
            } else if !falls && out@.contains(k as usize) {
                let w = choose|w: int| 0 <= w < out@.len() && out@[w] == k as usize;
                assert(out@[w] < i);
            }
        }
        i += 1;
    }
    out
}

/// A recording in flight never falls to retention, nor one whose date cannot
/// be read.
pub proof fn law_retention_spares(m: RecordingMetadata, cutoff: Instant)
    requires
        in_flight(m.status@) || rfc3339_result(m.created_at@) is None,
    ensures
        !expired(m, cutoff),
{
}

/// What retention does with the files of an entry.
#[derive(Debug)]
pub struct PrunePlan {
    /// The positions of what is removed.
    pub remove: Vec<usize>,
    /// Whether the directory itself goes.
    pub remove_dir: bool,
}

/// The results of pipelines are kept; everything else in the directory of an
/// entry goes, and the directory too where there are no results.
pub fn prune_entry_files(names: &Vec<String>) -> (r: PrunePlan)
    ensures
        forall|i: int|
            0 <= i < names@.len() ==> (r.remove@.contains(i as usize) <==> (
            #[trigger] names@[i])@ != "pipelines"@),
        forall|k: int| 0 <= k < r.remove@.len() ==> (#[trigger] r.remove@[k]) < names@.len(),
        forall|j: int, k: int| 0 <= j < k < r.remove@.len() ==> r.remove@[j] < r.remove@[k],
        r.remove_dir == (forall|i: int|
            0 <= i < names@.len() ==> (#[trigger] names@[i])@ != "pipelines"@),
{
    let mut remove: Vec<usize> = Vec::new();
    let mut remove_dir = true;
    let n: usize = names.len();
    let mut i: usize = 0;
    while i < n
        invariant
            i <= n,
            n == names@.len(),
            forall|k: int| 0 <= k < remove@.len() ==> (#[trigger] remove@[k]) < i,
            forall|j: int, k: int| 0 <= j < k < remove@.len() ==> remove@[j] < remove@[k],
            forall|k: int|
                0 <= k < i ==> (remove@.contains(k as usize) <==> (#[trigger] names@[k])@
                    != "pipelines"@),
            remove_dir == (forall|k: int|
                0 <= k < i ==> (#[trigger] names@[k])@ != "pipelines"@),
        decreases n - i,
    {
        let ghost before = remove@;
        let keep = same(names[i].as_str(), "pipelines");
        if keep {
            remove_dir = false;
        } else {
            remove.push(i);
            assert(remove@[before.len() as int] == i);
        }
        assert forall|k: int| 0 <= k < i + 1 implies (remove@.contains(k as usize) <==> (
        #[trigger] names@[k])@ != "pipelines"@) by {
            if k < i {
                if before.contains(k as usize) {
                    let w = choose|w: int| 0 <= w < before.len() && before[w] == k as usize;
                    assert(remove@[w] == k as usize);
                }
                if remove@.contains(k as usize) {
                    let w = choose|w: int| 0 <= w < remove@.len() && remove@[w] == k as usize;
                    assert(w < before.len());
                    assert(before[w] == k as usize);
                }
            } else if keep && remove@.contains(k as usize) {
                let w = choose|w: int| 0 <= w < remove@.len() && remove@[w] == k as usize;
                assert(remove@[w] < i);
            }
        }
        i += 1;
    }
    PrunePlan { remove, remove_dir }
}

/// Whether a recording may be deleted; `status` is absent where its metadata
/// cannot be read.
pub fn check_deletable(status: Option<&str>) -> (r: Result<(), String>)
    ensures
        match r {
            Ok(_) => status is None || status->0@ != "processing"@,
            Err(m) => status is Some && status->0@ == "processing"@ && m@
                == "Recording is still being finalized. Please wait."@,
        },
{
    match status {
        Some(s) => if same(s, "processing") {
            Err("Recording is still being finalized. Please wait.".to_owned())
        } else {
            Ok(())
        },
        None => Ok(()),
    }
}

/// What is noted of a recording that was in flight when the application ended.
pub open spec fn stuck_note(status: Seq<char>) -> Seq<char> {
    if status == "recording"@ {
        "Recording was active when the app exited — backend lost track of the live session. Audio file may still be playable; transcribe manually or delete."@
    } else {
        "Recording stuck in processing — app exited mid-finalize. Audio file may still be playable; retry transcription or delete."@
    }
}

/// The issues noted so far.
pub open spec fn issues_of(m: RecordingMetadata) -> Seq<RecordingIssue> {
    match m.health {
        Some(h) => h.issues@,
        None => Seq::empty(),
    }
}

/// `repaired` is `m` marked as failed, with one more issue that says why.
pub open spec fn marked_stuck(m: RecordingMetadata, repaired: RecordingMetadata) -> bool {
    &&& repaired == (RecordingMetadata {
        status: repaired.status,
        health: repaired.health,
        ..m
    })
    &&& repaired.status@ == "error"@
    &&& repaired.health is Some
    &&& repaired.health->0.status@ == "error"@
    &&& repaired.health->0.issues@.len() == issues_of(m).len() + 1
    &&& repaired.health->0.issues@.drop_last() == issues_of(m)
    &&& repaired.health->0.issues@.last().issue_type@ == "error"@
    &&& repaired.health->0.issues@.last().timestamp_ms == 0
    &&& repaired.health->0.issues@.last().message is Some
    &&& repaired.health->0.issues@.last().message->0@ == stuck_note(m.status@)
}

/// At startup nothing can be in flight: a recording that says so is marked as
/// failed. Says whether it did; others stay as they are.
pub fn repair_stuck(m: &mut RecordingMetadata) -> (repaired: bool)
    ensures
        repaired == in_flight(old(m).status@),
        repaired ==> marked_stuck(*old(m), *final(m)),
        !repaired ==> *final(m) == *old(m),
{
    let recording = same(m.status.as_str(), "recording");
    if !recording && !same(m.status.as_str(), "processing") {
        return false;
    }
    let note = if recording {
        "Recording was active when the app exited — backend lost track of the live session. Audio file may still be playable; transcribe manually or delete."
    } else {
        "Recording stuck in processing — app exited mid-finalize. Audio file may still be playable; retry transcription or delete."
    };
    let mut issues: Vec<RecordingIssue> = Vec::new();
    match m.health.take() {
        Some(h) => {
            issues = h.issues;
        },
        None => {},
    }
    assert(issues@ =~= issues_of(*old(m)));
    issues.push(
        RecordingIssue {
            issue_type: "error".to_owned(),
            timestamp_ms: 0,
            message: Some(note.to_owned()),
        },
    );
    assert(issues@.drop_last() =~= issues_of(*old(m)));
    m.health = Some(RecordingHealth { status: "error".to_owned(), issues });
    m.status = "error".to_owned();
    true
}

/// A repaired recording is not repaired again.
pub proof fn law_repair_settles(m: RecordingMetadata, repaired: RecordingMetadata)
    requires
        marked_stuck(m, repaired),
    ensures
        !in_flight(repaired.status@),
{
    reveal_strlit("error");
    reveal_strlit("recording");
    reveal_strlit("processing");
    assert("error"@.len() == 5);
    assert("recording"@.len() == 9);
    assert("processing"@.len() == 10);
}

/// `after` is `before` with every recording that was in flight marked as failed
/// and every other one unchanged.
pub open spec fn swept(before: Seq<RecordingMetadata>, after: Seq<RecordingMetadata>) -> bool {
    &&& after.len() == before.len()
    &&& forall|i: int|
        0 <= i < before.len() ==> if in_flight((#[trigger] before[i]).status@) {
            marked_stuck(before[i], after[i])
        } else {
            after[i] == before[i]
        }
}

/// The places of the recordings in flight among the first `n`.
pub open spec fn stuck_among(all: Seq<RecordingMetadata>, n: int) -> Seq<int>
    decreases n,
{
    if n <= 0 {
        Seq::empty()
    } else if in_flight(all[n - 1].status@) {
        stuck_among(all, n - 1).push(n - 1)
    } else {
        stuck_among(all, n - 1)
    }
}

/// Marks the recordings that were in flight when the application ended. Gives
/// the places of those that changed, each to be written again.
pub fn cleanup_stuck_processing_recordings(all: &mut Vec<RecordingMetadata>) -> (r: Vec<usize>)
    ensures
        swept(old(all)@, final(all)@),
        r@.map_values(|i: usize| i as int) == stuck_among(old(all)@, old(all)@.len() as int),
{
    let mut repaired: Vec<usize> = Vec::new();
    let ghost before = all@;
    let mut i: usize = 0;
    while i < all.len()
        invariant
            i <= all@.len(),
            all@.len() == before.len(),
            swept(before.take(i as int), all@.take(i as int)),
            forall|k: int| i <= k < all@.len() ==> all@[k] == before[k],
            repaired@.map_values(|i: usize| i as int) == stuck_among(before, i as int),
        decreases all@.len() - i,
    {
        let ghost was = all@;
        let ghost known = repaired@;
        if repair_stuck(&mut all[i]) {
            repaired.push(i);
            assert(repaired@.map_values(|i: usize| i as int) =~= known.map_values(
                |i: usize| i as int,
            ).push(i as int));
        }
        assert forall|k: int| 0 <= k < i + 1 implies if in_flight(
            (#[trigger] before.take(i as int + 1)[k]).status@,
        ) {
            marked_stuck(before[k], all@[k])
        } else {
            all@[k] == before[k]
        } by {
            if k < i {
                assert(before.take(i as int)[k] == before[k]);
                assert(was.take(i as int)[k] == was[k]);
            }
        }
        i += 1;
    }
    assert(before.take(i as int) =~= before);
    assert(all@.take(i as int) =~= all@);
    repaired
}

/// Once the recordings in flight have been marked none is in flight, and marking
/// them again changes nothing.
pub proof fn law_sweep_settles(
    before: Seq<RecordingMetadata>,
    after: Seq<RecordingMetadata>,
    again: Seq<RecordingMetadata>,
)
    requires
        swept(before, after),
        swept(after, again),
    ensures
        stuck_among(after, after.len() as int) == Seq::<int>::empty(),
        again == after,
{
    assert forall|i: int| 0 <= i < after.len() implies !in_flight((#[trigger] after[i]).status@) by {
        if in_flight(before[i].status@) {
            law_repair_settles(before[i], after[i]);
        }
    }
    lemma_none_stuck(after, after.len() as int);
    assert(again =~= after);
}

proof fn lemma_none_stuck(all: Seq<RecordingMetadata>, n: int)
    requires
        0 <= n <= all.len(),
        forall|i: int| 0 <= i < all.len() ==> !in_flight((#[trigger] all[i]).status@),
    ensures
        stuck_among(all, n) == Seq::<int>::empty(),
    decreases n,
{
    if n > 0 {
        lemma_none_stuck(all, n - 1);
    }
}

/// By what the list of recordings is ordered.
pub open spec fn begun() -> spec_fn(RecordingMetadata) -> Seq<char> {
    |m: RecordingMetadata| m.created_at@
}

/// The recordings, newest first.
pub fn newest_first(recordings: Vec<RecordingMetadata>) -> (r: Vec<RecordingMetadata>)
    ensures
        r@.to_multiset() == recordings@.to_multiset(),
        sorted_by(r@, begun(), true),
{
    let mut keys: Vec<Vec<char>> = Vec::new();
    let mut i: usize = 0;
    while i < recordings.len()
        invariant
            i <= recordings@.len(),
            keys@.len() == i,
            forall|k: int| 0 <= k < i ==> (#[trigger] keys@[k])@ == begun()(recordings@[k]),
        decreases recordings@.len() - i,
    {
        keys.push(chars_of(recordings[i].created_at.as_str()));
        i += 1;
    }
    sort_by_key(recordings, keys, true, Ghost(begun()))
}

/// The list of recordings as it was last read, until something is written.
#[derive(Debug)]
pub struct ListCache<T> {
    pub cached: Option<Vec<T>>,
    /// How many metadata files were read.
    pub reads: u64,
}

impl<T> ListCache<T> {
    /// Nothing read yet.
    pub fn new() -> (r: Self)
        ensures
            r.cached is None,
            r.reads == 0,
    {
        ListCache { cached: None, reads: 0 }
    }

    /// The list, where no write came after it was read.
    pub fn get(&self) -> (r: Option<&Vec<T>>)
        ensures
            match r {
                Some(v) => self.cached == Some(*v),
                None => self.cached is None,
            },
    {
        match &self.cached {
            Some(v) => Some(v),
            None => None,
        }
    }

    /// Keeps the list that was read from `files` metadata files.
    pub fn store(&mut self, list: Vec<T>, files: u64)
        requires
            old(self).reads + files <= u64::MAX,
        ensures
            final(self).cached == Some(list),
            final(self).reads == old(self).reads + files,
    {
        self.cached = Some(list);
        self.reads = self.reads + files;
    }

    /// Something was written: the next list is read anew.
    pub fn invalidate(&mut self)
        ensures
            final(self).cached is None,
            final(self).reads == old(self).reads,
    {
        self.cached = None;
    }
}

/// The metadata among what was read: each of `files` holds some, or could not be
/// understood.
pub open spec fn understood(files: Seq<Option<RecordingMetadata>>) -> Seq<RecordingMetadata>
    decreases files.len(),
{
    if files.len() == 0 {
        Seq::empty()
    } else {
        match files.last() {
            Some(m) => understood(files.drop_last()).push(m),
            None => understood(files.drop_last()),
        }
    }
}

fn readable(files: Vec<Option<RecordingMetadata>>) -> (r: Vec<RecordingMetadata>)
    ensures
        r@.to_multiset() == understood(files@).to_multiset(),
{
    broadcast use vstd::seq_lib::group_to_multiset_ensures;

    let mut rest = files;
    let mut found: Vec<RecordingMetadata> = Vec::new();
    assert(found@.to_multiset().add(understood(rest@).to_multiset()) =~= understood(
        files@,
    ).to_multiset());
    while rest.len() > 0
        invariant
            found@.to_multiset().add(understood(rest@).to_multiset()) == understood(
                files@,
            ).to_multiset(),
        decreases rest@.len(),
    {
        let ghost before = rest@;
        let ghost known = found@;
        match rest.pop() {
            Some(Some(m)) => {
                found.push(m);
                assert(rest@ =~= before.drop_last());
                proof {
                    vstd::seq_lib::to_multiset_build(understood(rest@), m);
                    vstd::seq_lib::to_multiset_build(known, m);
                }
                assert(found@.to_multiset().add(understood(rest@).to_multiset())
                    =~= known.to_multiset().add(understood(before).to_multiset()));
            },
            _ => {},
        }
    }
    assert(found@.to_multiset().add(understood(rest@).to_multiset()) =~= found@.to_multiset());
    found
}

/// A listing: a known list is given as it is, with nothing read; else it is made
/// of the metadata in `files`, newest first, and kept.
pub open spec fn listing(
    before: ListCache<RecordingMetadata>,
    files: Seq<Option<RecordingMetadata>>,
    after: ListCache<RecordingMetadata>,
    list: Seq<RecordingMetadata>,
) -> bool {
    &&& after.cached is Some
    &&& list == after.cached->0@
    &&& if before.cached is Some {
        after == before
    } else {
        &&& list.to_multiset() == understood(files).to_multiset()
        &&& sorted_by(list, begun(), true)
        &&& after.reads == before.reads + files.len()
    }
}

/// The recordings, newest first: the known list or, where none is known, the
/// metadata in `files`, one entry for each metadata file that was opened.
pub fn list_recordings(
    cache: &mut ListCache<RecordingMetadata>,
    files: Vec<Option<RecordingMetadata>>,
) -> (r: &Vec<RecordingMetadata>)
    requires
        old(cache).cached is None ==> old(cache).reads + files@.len() <= u64::MAX,
    ensures
        listing(*old(cache), files@, *final(cache), r@),
{
    if cache.cached.is_none() {
        let n: u64 = files.len() as u64;
        let found = readable(files);
        cache.store(newest_first(found), n);
    }
    cache.cached.as_ref().unwrap()
}

/// Until something is written a second listing gives the same list and reads
/// nothing, whatever the files hold by then.
pub proof fn law_second_listing(
    first: ListCache<RecordingMetadata>,
    files: Seq<Option<RecordingMetadata>>,
    kept: ListCache<RecordingMetadata>,
    list: Seq<RecordingMetadata>,
    later_files: Seq<Option<RecordingMetadata>>,
    last: ListCache<RecordingMetadata>,
    second: Seq<RecordingMetadata>,
)
    requires
        listing(first, files, kept, list),
        listing(kept, later_files, last, second),
    ensures
        second == list,
        last.reads == kept.reads,
{
}

/// Retention deletes what began more than so many days before now, day by day of
/// eighty-six thousand four hundred seconds, unless it is in flight.
pub proof fn law_retention(m: RecordingMetadata, now: Instant, days: u32)
    requires
        i64::MIN <= now.seconds - days * 86400,
    ensures
        expired(m, cutoff(now, days)) <==> {
            &&& m.status@ != "recording"@
            &&& m.status@ != "processing"@
            &&& rfc3339_result(m.created_at@) is Some
            &&& {
                let at = rfc3339_result(m.created_at@)->0;
                ||| at.seconds + days * 24 * 60 * 60 < now.seconds
                ||| at.seconds + days * 24 * 60 * 60 == now.seconds && at.nanos < now.nanos
            }
        },
{
}

/// The notes on recordings that were in flight say which it was; all else about them stays.
pub proof fn law_stuck_is_noted(m: RecordingMetadata, repaired: RecordingMetadata)
    requires
        marked_stuck(m, repaired),
        in_flight(m.status@),
    ensures
        ({
            let note = repaired.health->0.issues@.last().message->0@;
            &&& m.status@ == "recording"@ ==> note
                == "Recording was active when the app exited — backend lost track of the live session. Audio file may still be playable; transcribe manually or delete."@
            &&& m.status@ == "processing"@ ==> note
                == "Recording stuck in processing — app exited mid-finalize. Audio file may still be playable; retry transcription or delete."@
        }),
        repaired.status@ == "error"@,
        repaired.id == m.id && repaired.title == m.title && repaired.created_at == m.created_at,
        repaired.audio == m.audio && repaired.pipelines == m.pipelines,
        forall|i: int|
            0 <= i < issues_of(m).len() ==> #[trigger] issues_of(repaired)[i] == issues_of(m)[i],
{
    reveal_strlit("recording");
    reveal_strlit("processing");
    assert("recording"@.len() == 9);
    assert("processing"@.len() == 10);
    assert forall|i: int| 0 <= i < issues_of(m).len() implies #[trigger] issues_of(repaired)[i]
        == issues_of(m)[i] by {
        assert(issues_of(repaired).drop_last()[i] == issues_of(repaired)[i]);
    }
}

/// The places told are those of the recordings in flight, each once, in their order.
pub proof fn law_stuck_places(all: Seq<RecordingMetadata>, n: int)
    requires
        0 <= n <= all.len(),
    ensures
        forall|i: int|
            0 <= i < n ==> (stuck_among(all, n).contains(i) <==> (#[trigger] all[i]).status@
                == "recording"@ || all[i].status@ == "processing"@),
        forall|k: int| 0 <= k < stuck_among(all, n).len() ==> 0 <= #[trigger] stuck_among(all, n)[k] < n,
        forall|j: int, k: int|
            0 <= j < k < stuck_among(all, n).len() ==> (#[trigger] stuck_among(all, n)[j]) < (
            #[trigger] stuck_among(all, n)[k]),
    decreases n,
{
    if n > 0 {
        law_stuck_places(all, n - 1);
        let before = stuck_among(all, n - 1);
        let now = stuck_among(all, n);
        assert forall|i: int| 0 <= i < n implies (now.contains(i) <==> (#[trigger] all[i]).status@
            == "recording"@ || all[i].status@ == "processing"@) by {
            if before.contains(i) {
                let k = choose|k: int| 0 <= k < before.len() && before[k] == i;
                assert(now[k] == i);
            }
            if now.contains(i) {
                let k = choose|k: int| 0 <= k < now.len() && now[k] == i;
                if k < before.len() {
                    assert(before[k] == i);
                }
            }
            if i == n - 1 && in_flight(all[i].status@) {
                assert(now[before.len() as int] == i);
            }
        }
    }
}

/// A recording that began later stands before one that began earlier.
pub proof fn law_newest_first(
    list: Seq<RecordingMetadata>,
    i: int,
    j: int,
    common: Seq<char>,
    earlier: Seq<char>,
    later: Seq<char>,
)
    requires
        sorted_by(list, begun(), true),
        0 <= i < list.len(),
        0 <= j < list.len(),
        list[i].created_at@ == common + later,
        list[j].created_at@ == common + earlier,
        earlier.len() > 0,
        later.len() > 0,
        earlier[0] < later[0],
    ensures
        i < j,
{
    crate::text::law_order(common, earlier, later);
    if i == j {
        assert((common + later)[common.len() as int] == later[0]);
        assert((common + earlier)[common.len() as int] == earlier[0]);
    } else if j < i {
        assert(crate::sorting::in_order(begun()(list[j]), begun()(list[i]), true));
    }
}

/// A listing that is read anew has every recording whose metadata was understood, and
/// none besides.
pub proof fn law_listing_is_complete(
    before: ListCache<RecordingMetadata>,
    files: Seq<Option<RecordingMetadata>>,
    after: ListCache<RecordingMetadata>,
    list: Seq<RecordingMetadata>,
    m: RecordingMetadata,
)
    requires
        listing(before, files, after, list),
        before.cached is None,
    ensures
        list.contains(m) <==> files.contains(Some(m)),
        after.reads == before.reads + files.len(),
{
    broadcast use vstd::seq_lib::group_to_multiset_ensures;

    lemma_understood(files, m);
    list.to_multiset_ensures();
    understood(files).to_multiset_ensures();
    assert(list.contains(m) <==> list.to_multiset().count(m) > 0);
    assert(understood(files).contains(m) <==> understood(files).to_multiset().count(m) > 0);
}

proof fn lemma_understood(files: Seq<Option<RecordingMetadata>>, m: RecordingMetadata)
    ensures
        understood(files).contains(m) <==> files.contains(Some(m)),
    decreases files.len(),
{
    if files.len() > 0 {
        let less = files.drop_last();
        lemma_understood(less, m);
        if files.contains(Some(m)) {
            let k = choose|k: int| 0 <= k < files.len() && files[k] == Some(m);
            if k < less.len() {
                assert(less[k] == Some(m));
                let w = choose|w: int| 0 <= w < understood(less).len() && understood(less)[w] == m;
                assert(understood(files)[w] == m);
            } else {
                assert(understood(files)[understood(less).len() as int] == m);
            }
        }
        if understood(files).contains(m) {
            let w = choose|w: int| 0 <= w < understood(files).len() && understood(files)[w] == m;
            if w < understood(less).len() {
                assert(understood(less)[w] == m);
                let k = choose|k: int| 0 <= k < less.len() && less[k] == Some(m);
                assert(files[k] == Some(m));
            } else {
                assert(files[files.len() - 1] == Some(m));
            }
        }
    }
}

/// The recordings are where the settings say; a settings file without a directory, or
/// none, leaves them under the home directory.
pub proof fn law_data_dir(home: Option<&str>, settings: Option<Json>, path: Seq<char>)
    ensures
        settings is Some && settings->0.member_text("storage_path"@) == Some(path)
            ==> data_dir_of(home, settings) == path,
        settings is None || settings->0.member_text("storage_path"@) is None ==> (match home {
            Some(h) => data_dir_of(home, settings) == under(h@, "nbp-data"@),
            None => data_dir_of(home, settings) == under("."@, "nbp-data"@),
        }),
{
}

} // verus!
