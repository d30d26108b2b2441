//! Sessions as they are shown: one record for each session, whatever instances it is found in.
use vstd::prelude::*;

use crate::favorites::{
    backup_dir, backups_that_were_made_exist, backups_that_were_removed_are_gone, with_backups,
    without_backups,
};
use crate::instances::{
    session_matches, state_sessions, wanted_matches, CodexSyncInstance, InstanceModel, MatchModel,
    SessionMatch, StateModel,
};
use crate::listing::{
    is_listing, lemma_row_values, lemma_sorted_listing, listings_are_settled,
};
use crate::order::{
    ahead, ranked, ranked_is_a_stable_sort, sort_ranked, sorting_keeps_sorted_lists, text_before,
    text_less, text_order_is_total, Ranked, SortKey,
};
use crate::search::{lowercase, to_lowercase};
use crate::snapshots::{
    copy_text, or_zero, time_or_zero, unless_blank, SessionSnapshot, SnapshotModel,
};
use crate::table::{lookup, rows_map, Table};
use crate::text::{blank, is_blank, same_text, trim, trimmed};
use crate::timeline::{
    lines_model, parse_timeline_from_file, timeline_events, timeline_warnings, CodexTimelineEvent,
};

verus! {

// ---------------------------------------------------------------------------------------------
// Locations and records
// ---------------------------------------------------------------------------------------------
/// A place where a session is found.
#[derive(Debug, PartialEq, Eq)]
pub struct CodexSessionViewerLocation {
    pub instance_id: String,
    pub instance_name: String,
    pub running: bool,
    pub session_path: Option<String>,
    pub updated_at: Option<i64>,
    pub created_at: Option<i64>,
    pub cwd: String,
    pub model_provider: String,
}

/// What a place says of a session.
#[verifier::ext_equal]
pub struct LocationModel {
    pub instance_id: Seq<char>,
    pub instance_name: Seq<char>,
    pub running: bool,
    pub session_path: Option<Seq<char>>,
    pub updated_at: Option<i64>,
    pub created_at: Option<i64>,
    pub cwd: Seq<char>,
    pub model_provider: Seq<char>,
}

impl DeepView for CodexSessionViewerLocation {
    type V = LocationModel;

    open spec fn deep_view(&self) -> LocationModel {
        LocationModel {
            instance_id: self.instance_id@,
            instance_name: self.instance_name@,
            running: self.running,
            session_path: self.session_path.deep_view(),
            updated_at: self.updated_at,
            created_at: self.created_at,
            cwd: self.cwd@,
            model_provider: self.model_provider@,
        }
    }
}

impl Clone for CodexSessionViewerLocation {
    fn clone(&self) -> (r: CodexSessionViewerLocation)
        ensures
            r.deep_view() == self.deep_view(),
    {
        CodexSessionViewerLocation {
            instance_id: self.instance_id.clone(),
            instance_name: self.instance_name.clone(),
            running: self.running,
            session_path: copy_text(&self.session_path),
            updated_at: self.updated_at,
            created_at: self.created_at,
            cwd: self.cwd.clone(),
            model_provider: self.model_provider.clone(),
        }
    }
}

/// What locations are sorted by: running instances first, then the latest, then by name.
pub open spec fn location_key(m: LocationModel) -> SortKey {
    SortKey {
        front: m.running,
        time: or_zero(m.updated_at),
        name: m.instance_name,
        id: Seq::empty(),
    }
}

impl Ranked for CodexSessionViewerLocation {
    open spec fn rank(m: LocationModel) -> SortKey {
        location_key(m)
    }

    fn is_ahead(&self, other: &CodexSessionViewerLocation) -> (r: bool) {
        let mine: i64 = time_or_zero(self.updated_at);
        let theirs: i64 = time_or_zero(other.updated_at);
        proof {
            text_order_is_total(self.instance_name@, other.instance_name@);
        }
        if self.running != other.running {
            self.running
        } else if mine != theirs {
            mine > theirs
        } else {
            text_before(self.instance_name.as_str(), other.instance_name.as_str())
        }
    }
}

/// A session with all places where it is found.
#[derive(Debug, PartialEq, Eq)]
pub struct CodexSessionViewerRecord {
    pub session_id: String,
    pub title: String,
    pub cwd: String,
    pub updated_at: Option<i64>,
    pub created_at: Option<i64>,
    pub model_provider: String,
    pub session_path: Option<String>,
    pub location_count: usize,
    pub is_favorite: bool,
    pub locations: Vec<CodexSessionViewerLocation>,
}

/// What is shown of a session.
#[verifier::ext_equal]
pub struct RecordModel {
    pub session_id: Seq<char>,
    pub title: Seq<char>,
    pub cwd: Seq<char>,
    pub updated_at: Option<i64>,
    pub created_at: Option<i64>,
    pub model_provider: Seq<char>,
    pub session_path: Option<Seq<char>>,
    pub location_count: nat,
    pub is_favorite: bool,
    pub locations: Seq<LocationModel>,
}

impl DeepView for CodexSessionViewerRecord {
    type V = RecordModel;

    open spec fn deep_view(&self) -> RecordModel {
        RecordModel {
            session_id: self.session_id@,
            title: self.title@,
            cwd: self.cwd@,
            updated_at: self.updated_at,
            created_at: self.created_at,
            model_provider: self.model_provider@,
            session_path: self.session_path.deep_view(),
            location_count: self.location_count as nat,
            is_favorite: self.is_favorite,
            locations: self.locations.deep_view(),
        }
    }
}

impl Clone for CodexSessionViewerRecord {
    fn clone(&self) -> (r: CodexSessionViewerRecord)
        ensures
            r.deep_view() == self.deep_view(),
    {
        let mut locations: Vec<CodexSessionViewerLocation> = Vec::new();
        let mut i: usize = 0;
        while i < self.locations.len()
            invariant
                i <= self.locations@.len(),
                locations@.len() == i,
                forall|k: int|
                    0 <= k < i ==> (#[trigger] locations@[k]).deep_view()
                        == self.locations@[k].deep_view(),
            decreases self.locations@.len() - i,
        {
            locations.push(self.locations[i].clone());
            i += 1;
        }
        proof {
            assert(locations.deep_view() =~= self.locations.deep_view());
        }
        CodexSessionViewerRecord {
            session_id: self.session_id.clone(),
            title: self.title.clone(),
            cwd: self.cwd.clone(),
            updated_at: self.updated_at,
            created_at: self.created_at,
            model_provider: self.model_provider.clone(),
            session_path: copy_text(&self.session_path),
            location_count: self.location_count,
            is_favorite: self.is_favorite,
            locations,
        }
    }
}

/// What records are sorted by: the latest first, then by title and identifier.
pub open spec fn record_key(m: RecordModel) -> SortKey {
    SortKey { front: false, time: or_zero(m.updated_at), name: m.title, id: m.session_id }
}

/// The name under which a record is found.
pub open spec fn record_name(m: RecordModel) -> Seq<char> {
    lowercase(m.session_id)
}

impl Ranked for CodexSessionViewerRecord {
    open spec fn rank(m: RecordModel) -> SortKey {
        record_key(m)
    }

    fn is_ahead(&self, other: &CodexSessionViewerRecord) -> (r: bool) {
        let mine: i64 = time_or_zero(self.updated_at);
        let theirs: i64 = time_or_zero(other.updated_at);
        if mine != theirs {
            mine > theirs
        } else if !same_text(self.title.as_str(), other.title.as_str()) {
            text_before(self.title.as_str(), other.title.as_str())
        } else {
            text_before(self.session_id.as_str(), other.session_id.as_str())
        }
    }
}

// ---------------------------------------------------------------------------------------------
// From matches to records
// ---------------------------------------------------------------------------------------------
/// A session that was found in an instance, with what the disk says of it: whether it is a favorite,
/// and whether its session file exists.
#[derive(Debug, PartialEq)]
pub struct MatchOnDisk {
    pub item: SessionMatch,
    pub favorited: bool,
    pub has_file: bool,
}

/// What is known of a session that was found in an instance.
#[verifier::ext_equal]
pub struct DiskModel {
    pub item: MatchModel,
    pub favorited: bool,
    pub has_file: bool,
}

impl DeepView for MatchOnDisk {
    type V = DiskModel;

    open spec fn deep_view(&self) -> DiskModel {
        DiskModel {
            item: self.item.deep_view(),
            favorited: self.favorited,
            has_file: self.has_file,
        }
    }
}

/// A record without any place.
pub open spec fn bare_record(snapshot: SnapshotModel) -> RecordModel {
    RecordModel {
        session_id: snapshot.id,
        title: unless_blank(snapshot.title, snapshot.id),
        cwd: snapshot.cwd,
        updated_at: snapshot.updated_at,
        created_at: snapshot.created_at,
        model_provider: snapshot.model_provider,
        session_path: snapshot.rollout_path,
        location_count: 0,
        is_favorite: false,
        locations: Seq::empty(),
    }
}

/// The record of a session before any place is known.
pub fn build_record_from_snapshot(snapshot: &SessionSnapshot) -> (r: CodexSessionViewerRecord)
    ensures
        r.deep_view() == bare_record(snapshot.deep_view()),
{
    let r = CodexSessionViewerRecord {
        session_id: snapshot.id.clone(),
        title: if blank(snapshot.title.as_str()) {
            snapshot.id.clone()
        } else {
            snapshot.title.clone()
        },
        cwd: snapshot.cwd.clone(),
        updated_at: snapshot.updated_at,
        created_at: snapshot.created_at,
        model_provider: snapshot.model_provider.clone(),
        session_path: copy_text(&snapshot.rollout_path),
        location_count: 0,
        is_favorite: false,
        locations: Vec::new(),
    };
    proof {
        assert(r.deep_view() =~= bare_record(snapshot.deep_view()));
    }
    r
}

/// The place that a match adds to a record.
pub open spec fn location_of(
    instance: InstanceModel,
    running: bool,
    snapshot: SnapshotModel,
) -> LocationModel {
    LocationModel {
        instance_id: instance.id,
        instance_name: instance.name,
        running,
        session_path: snapshot.rollout_path,
        updated_at: snapshot.updated_at,
        created_at: snapshot.created_at,
        cwd: snapshot.cwd,
        model_provider: snapshot.model_provider,
    }
}

/// Whether a snapshot is later than a record, or says something that the record does not.
pub open spec fn promotes(record: RecordModel, snapshot: SnapshotModel) -> bool {
    ||| or_zero(snapshot.updated_at) > or_zero(record.updated_at)
    ||| record.session_path is None && snapshot.rollout_path is Some
    ||| is_blank(record.title) && !is_blank(snapshot.title)
    ||| is_blank(record.cwd) && !is_blank(snapshot.cwd)
    ||| is_blank(record.model_provider) && !is_blank(snapshot.model_provider)
}

/// The earlier of two times, of which either may be missing.
pub open spec fn earlier(a: Option<i64>, b: Option<i64>) -> Option<i64> {
    match (a, b) {
        (None, t) => t,
        (Some(x), Some(y)) if y < x => Some(y),
        _ => a,
    }
}

/// A record with what one more instance knows of the session. The record takes over what the
/// snapshot says, where it is later or has more to say.
pub open spec fn merged_record(
    record: RecordModel,
    instance: InstanceModel,
    running: bool,
    favorited: bool,
    snapshot: SnapshotModel,
) -> RecordModel {
    let locations = ranked(
        record.locations.push(location_of(instance, running, snapshot)),
        |m: LocationModel| location_key(m),
    );
    let takes_over = promotes(record, snapshot);
    RecordModel {
        session_id: record.session_id,
        title: if takes_over {
            unless_blank(snapshot.title, record.title)
        } else {
            record.title
        },
        cwd: if takes_over {
            unless_blank(snapshot.cwd, record.cwd)
        } else {
            record.cwd
        },
        updated_at: if or_zero(snapshot.updated_at) > or_zero(record.updated_at) {
            snapshot.updated_at
        } else {
            record.updated_at
        },
        created_at: earlier(record.created_at, snapshot.created_at),
        model_provider: if takes_over {
            unless_blank(snapshot.model_provider, record.model_provider)
        } else {
            record.model_provider
        },
        session_path: if takes_over && snapshot.rollout_path is Some {
            snapshot.rollout_path
        } else {
            record.session_path
        },
        location_count: locations.len(),
        is_favorite: record.is_favorite || favorited,
        locations,
    }
}

fn add_location(record: &mut CodexSessionViewerRecord, location: CodexSessionViewerLocation)
    ensures
        final(record).deep_view() == (RecordModel {
            locations: ranked(
                old(record).deep_view().locations.push(location.deep_view()),
                |m: LocationModel| location_key(m),
            ),
            location_count: old(record).deep_view().locations.len() + 1,
            ..old(record).deep_view()
        }),
{
    let ghost known = record.locations.deep_view();
    let ghost m = location.deep_view();
    let ghost key = |m: LocationModel| location_key(m);
    let mut locations: Vec<CodexSessionViewerLocation> = Vec::new();
    std::mem::swap(&mut record.locations, &mut locations);
    locations.push(location);
    proof {
        assert(locations.deep_view() =~= known.push(m));
        assert((|m: LocationModel| CodexSessionViewerLocation::rank(m)) =~= key);
        ranked_is_a_stable_sort(known.push(m), key);
    }
    record.locations = sort_ranked(locations);
    record.location_count = record.locations.len();
}

/// Adds what one more instance knows of a session to its record.
pub fn merge_snapshot_into_record(
    record: &mut CodexSessionViewerRecord,
    instance: &CodexSyncInstance,
    running: bool,
    favorited: bool,
    snapshot: &SessionSnapshot,
)
    ensures
        final(record).deep_view() == merged_record(
            old(record).deep_view(),
            instance.deep_view(),
            running,
            favorited,
            snapshot.deep_view(),
        ),
{
    let ghost before = record.deep_view();
    let location = CodexSessionViewerLocation {
        instance_id: instance.id.clone(),
        instance_name: instance.name.clone(),
        running,
        session_path: copy_text(&snapshot.rollout_path),
        updated_at: snapshot.updated_at,
        created_at: snapshot.created_at,
        cwd: snapshot.cwd.clone(),
        model_provider: snapshot.model_provider.clone(),
    };
    add_location(record, location);
    proof {
        ranked_is_a_stable_sort(
            before.locations.push(location.deep_view()),
            |m: LocationModel| location_key(m),
        );
    }
    record.is_favorite = record.is_favorite || favorited;

    let later = time_or_zero(snapshot.updated_at) > time_or_zero(record.updated_at);
    let promote = later || (record.session_path.is_none() && snapshot.rollout_path.is_some()) || (
    blank(record.title.as_str()) && !blank(snapshot.title.as_str())) || (blank(record.cwd.as_str())
        && !blank(snapshot.cwd.as_str())) || (blank(record.model_provider.as_str()) && !blank(
        snapshot.model_provider.as_str(),
    ));
    if promote {
        if !blank(snapshot.title.as_str()) {
            record.title = snapshot.title.clone();
        }
        if !blank(snapshot.cwd.as_str()) {
            record.cwd = snapshot.cwd.clone();
        }
        if !blank(snapshot.model_provider.as_str()) {
            record.model_provider = snapshot.model_provider.clone();
        }
        if snapshot.rollout_path.is_some() {
            record.session_path = copy_text(&snapshot.rollout_path);
        }
    }
    if later {
        record.updated_at = snapshot.updated_at;
    }
    match (record.created_at, snapshot.created_at) {
        (None, value) => {
            record.created_at = value;
        },
        (Some(current), Some(candidate)) => {
            if candidate < current {
                record.created_at = Some(candidate);
            }
        },
        _ => {},
    }
}

/// A record with what the matches know of the session, one after the other.
pub open spec fn merged_all(record: RecordModel, matches: Seq<DiskModel>) -> RecordModel
    decreases matches.len(),
{
    if matches.len() == 0 {
        record
    } else {
        let m = matches.last();
        merged_record(
            merged_all(record, matches.drop_last()),
            m.item.instance,
            m.item.running,
            m.favorited,
            m.item.snapshot,
        )
    }
}

/// The record of a session that was found in some instances.
pub open spec fn session_record(matches: Seq<DiskModel>) -> RecordModel {
    merged_all(bare_record(matches[0].item.snapshot), matches)
}

/// The matches on one session, by its identifier in lower case.
pub open spec fn on_session(matches: Seq<DiskModel>, key: Seq<char>) -> Seq<DiskModel>
    decreases matches.len(),
{
    if matches.len() == 0 {
        Seq::empty()
    } else {
        let before = on_session(matches.drop_last(), key);
        if lowercase(matches.last().item.snapshot.id) == key {
            before.push(matches.last())
        } else {
            before
        }
    }
}

/// The records of all sessions that were found, by their identifiers in lower case.
pub open spec fn all_records(matches: Seq<DiskModel>) -> Map<Seq<char>, RecordModel> {
    Map::new(
        |key: Seq<char>| on_session(matches, key).len() > 0,
        |key: Seq<char>| session_record(on_session(matches, key)),
    )
}

/// Whether a list holds each record once, the latest first, then by title and identifier.
pub open spec fn is_record_list(list: Seq<RecordModel>, records: Map<Seq<char>, RecordModel>) -> bool {
    is_listing(list, records, |m: RecordModel| record_key(m), |m: RecordModel| record_name(m))
}

/// The record that a session has so far.
spec fn record_so_far(matches: Seq<DiskModel>, key: Seq<char>) -> Option<RecordModel> {
    if on_session(matches, key).len() > 0 {
        Some(session_record(on_session(matches, key)))
    } else {
        None
    }
}

proof fn lemma_first_on_session(matches: Seq<DiskModel>, key: Seq<char>)
    ensures
        on_session(matches, key).len() > 0 ==> lowercase(
            on_session(matches, key)[0].item.snapshot.id,
        ) == key,
    decreases matches.len(),
{
    if matches.len() > 0 {
        lemma_first_on_session(matches.drop_last(), key);
    }
}

proof fn lemma_merged_name(record: RecordModel, matches: Seq<DiskModel>)
    ensures
        merged_all(record, matches).session_id == record.session_id,
    decreases matches.len(),
{
    if matches.len() > 0 {
        lemma_merged_name(record, matches.drop_last());
    }
}

fn collect_records(matches: &Vec<MatchOnDisk>) -> (r: Table<CodexSessionViewerRecord>)
    ensures
        r.wf(),
        forall|k: Seq<char>| #[trigger]
            lookup(r@, k) == record_so_far(matches.deep_view(), k),
{
    let ghost all = matches.deep_view();
    let mut records: Table<CodexSessionViewerRecord> = Table::new();
    let mut i: usize = 0;
    proof {
        assert(all.take(0).len() == 0);
    }
    while i < matches.len()
        invariant
            all == matches.deep_view(),
            i <= matches@.len(),
            records.wf(),
            forall|k: Seq<char>| #[trigger]
                lookup(records@, k) == record_so_far(all.take(i as int), k),
        decreases matches@.len() - i,
    {
        let item = &matches[i];
        let ghost now = records@;
        let ghost next = all.take(i + 1);
        let ghost name = lowercase(item.item.snapshot.id@);
        proof {
            assert(next.drop_last() =~= all.take(i as int));
            assert(next.last() == item.deep_view());
            assert(lookup(now, name) == record_so_far(all.take(i as int), name));
        }
        let key = to_lowercase(item.item.snapshot.id.as_str());
        let mut record = match records.get(key.as_str()) {
            Some(known) => known.clone(),
            None => build_record_from_snapshot(&item.item.snapshot),
        };
        merge_snapshot_into_record(
            &mut record,
            &item.item.instance,
            item.item.running,
            item.favorited,
            &item.item.snapshot,
        );
        proof {
            let before = on_session(all.take(i as int), name);
            let after = on_session(next, name);
            assert(after == before.push(item.deep_view()));
            assert(after.drop_last() =~= before);
            if before.len() == 0 {
                assert(merged_all(bare_record(after[0].item.snapshot), before) == bare_record(
                    after[0].item.snapshot,
                ));
            } else {
                assert(after[0] == before[0]);
            }
            assert(record.deep_view() == session_record(after));
        }
        let ghost m = record.deep_view();
        records.put(key, record);
        proof {
            assert forall|k: Seq<char>| #[trigger] lookup(records@, k) == record_so_far(next, k) by {
                assert(lookup(now, k) == record_so_far(all.take(i as int), k));
                if k == name {
                    assert(lookup(records@, k) == Some(m));
                }
            }
        }
        i += 1;
    }
    proof {
        assert(all.take(i as int) =~= all);
    }
    records
}

/// All sessions that were found, one record for each, the latest first, then by title and
/// identifier. `collected` says why where they could not be collected.
pub fn list_sessions_across_instances(collected: Result<Vec<MatchOnDisk>, String>) -> (r: Result<
    Vec<CodexSessionViewerRecord>,
    String,
>)
    ensures
        match (collected, r) {
            (Ok(found), Ok(list)) => is_record_list(
                list.deep_view(),
                all_records(found.deep_view()),
            ),
            (Err(e), Err(message)) => message@ == e@,
            _ => false,
        },
{
    let found = match collected {
        Ok(found) => found,
        Err(e) => {
            return Err(e);
        },
    };
    let ghost all = found.deep_view();
    let ghost key = |m: RecordModel| record_key(m);
    let ghost name = |m: RecordModel| record_name(m);
    let records = collect_records(&found);
    let ghost rows = records.rows.deep_view();
    proof {
        let wanted = all_records(all);
        assert forall|k: Seq<char>| #[trigger] rows_map(rows).contains_key(k) implies k == name(
            rows_map(rows)[k],
        ) by {
            assert(lookup(records@, k) == record_so_far(all, k));
            lemma_first_on_session(all, k);
            let ms = on_session(all, k);
            lemma_merged_name(bare_record(ms[0].item.snapshot), ms);
        }
        assert forall|k: Seq<char>| records@.contains_key(k) == wanted.contains_key(k) by {
            assert(lookup(records@, k) == record_so_far(all, k));
        }
        assert forall|k: Seq<char>| records@.contains_key(k) implies records@[k] == wanted[k] by {
            assert(lookup(records@, k) == record_so_far(all, k));
        }
        assert(records@ =~= wanted);
        lemma_row_values(rows, name);
        assert((|m: RecordModel| CodexSessionViewerRecord::rank(m)) =~= key);
        lemma_sorted_listing(
            rows.map_values(|row: (Seq<char>, RecordModel)| row.1),
            rows_map(rows),
            key,
            name,
        );
    }
    Ok(sort_ranked(records.into_values()))
}

// ---------------------------------------------------------------------------------------------
// The timeline of a session
// ---------------------------------------------------------------------------------------------
/// A session with its events, and warnings about what could not be shown.
#[derive(Debug, PartialEq, Eq)]
pub struct CodexSessionTimeline {
    pub session: CodexSessionViewerRecord,
    pub events: Vec<CodexTimelineEvent>,
    pub warnings: Vec<String>,
}

/// Whether the session file of a match exists.
pub open spec fn file_there(m: DiskModel) -> bool {
    m.item.snapshot.rollout_path is Some && m.has_file
}

/// Whether a match is a better source than another: its file exists, its instance is running, it is
/// later.
pub open spec fn outranks(a: DiskModel, b: DiskModel) -> bool {
    if file_there(a) != file_there(b) {
        file_there(a)
    } else if a.item.running != b.item.running {
        a.item.running
    } else {
        or_zero(a.item.snapshot.updated_at) > or_zero(b.item.snapshot.updated_at)
    }
}

/// The position of the best match; of several equally good ones, the last.
pub open spec fn best_match(matches: Seq<DiskModel>) -> int
    decreases matches.len(),
{
    if matches.len() <= 1 {
        0
    } else {
        let before = best_match(matches.drop_last());
        if outranks(matches[before], matches.last()) {
            before
        } else {
            matches.len() - 1
        }
    }
}

/// The position of the first match in an instance, or the number of matches where there is none.
pub open spec fn first_in_instance(matches: Seq<DiskModel>, instance_id: Seq<char>) -> int
    decreases matches.len(),
{
    if matches.len() == 0 || matches[0].item.instance.id == instance_id {
        0
    } else {
        1 + first_in_instance(matches.drop_first(), instance_id)
    }
}

/// The position of the match whose file is shown: the first one in the preferred instance, where its
/// file exists, and otherwise the best one.
pub open spec fn chosen_match(matches: Seq<DiskModel>, preferred: Option<Seq<char>>) -> int {
    let best = best_match(matches);
    match preferred {
        Some(instance_id) => {
            let first = first_in_instance(matches, instance_id);
            if first < matches.len() && file_there(matches[first]) {
                first
            } else {
                best
            }
        },
        None => best,
    }
}

fn has_session_file(m: &MatchOnDisk) -> (r: bool)
    ensures
        r == file_there(m.deep_view()),
{
    m.item.snapshot.rollout_path.is_some() && m.has_file
}

fn better(a: &MatchOnDisk, b: &MatchOnDisk) -> (r: bool)
    ensures
        r == outranks(a.deep_view(), b.deep_view()),
{
    let mine = has_session_file(a);
    let theirs = has_session_file(b);
    if mine != theirs {
        mine
    } else if a.item.running != b.item.running {
        a.item.running
    } else {
        time_or_zero(a.item.snapshot.updated_at) > time_or_zero(b.item.snapshot.updated_at)
    }
}

proof fn lemma_first_in_instance(matches: Seq<DiskModel>, instance_id: Seq<char>, at: int)
    requires
        0 <= at <= matches.len(),
        forall|k: int| 0 <= k < at ==> (#[trigger] matches[k]).item.instance.id != instance_id,
        at < matches.len() ==> matches[at].item.instance.id == instance_id,
    ensures
        first_in_instance(matches, instance_id) == at,
    decreases matches.len(),
{
    if matches.len() > 0 && matches[0].item.instance.id != instance_id {
        let rest = matches.drop_first();
        assert forall|k: int| 0 <= k < at - 1 implies (#[trigger] rest[k]).item.instance.id
            != instance_id by {
            assert(rest[k] == matches[k + 1]);
        }
        lemma_first_in_instance(rest, instance_id, at - 1);
    }
}

/// The match whose file is shown. There is none only where there is no match at all.
pub fn choose_session_match<'a>(
    matches: &'a Vec<MatchOnDisk>,
    preferred_instance_id: Option<&str>,
) -> (r: Option<&'a MatchOnDisk>)
    ensures
        match r {
            Some(m) => {
                let at = chosen_match(matches.deep_view(), preferred_instance_id.deep_view());
                &&& 0 <= at < matches@.len()
                &&& m.deep_view() == matches.deep_view()[at]
                &&& *m == matches@[at]
            },
            None => matches@.len() == 0,
        },
{
    let ghost all = matches.deep_view();
    if let Some(instance_id) = preferred_instance_id {
        let mut at: usize = 0;
        while at < matches.len() && !same_text(
            matches[at].item.instance.id.as_str(),
            instance_id,
        )
            invariant
                all == matches.deep_view(),
                at <= matches@.len(),
                forall|k: int|
                    0 <= k < at ==> (#[trigger] all[k]).item.instance.id != instance_id@,
            decreases matches@.len() - at,
        {
            at += 1;
        }
        proof {
            lemma_first_in_instance(all, instance_id@, at as int);
        }
        if at < matches.len() && has_session_file(&matches[at]) {
            return Some(&matches[at]);
        }
    }
    if matches.len() == 0 {
        return None;
    }
    let mut best: usize = 0;
    let mut i: usize = 1;
    proof {
        assert(all.take(1).len() == 1);
    }
    while i < matches.len()
        invariant
            all == matches.deep_view(),
            1 <= i <= matches@.len(),
            best < i,
            best == best_match(all.take(i as int)),
        decreases matches@.len() - i,
    {
        proof {
            assert(all.take(i + 1).drop_last() =~= all.take(i as int));
            assert(all.take(i + 1).last() == matches@[i as int].deep_view());
            assert(all.take(i + 1)[best as int] == matches@[best as int].deep_view());
        }
        if !better(&matches[best], &matches[i]) {
            best = i;
        }
        i += 1;
    }
    proof {
        assert(all.take(i as int) =~= all);
    }
    Some(&matches[best])
}

/// The instance that is asked for, unless it is blank.
pub open spec fn preferred_instance(asked: Option<Seq<char>>) -> Option<Seq<char>> {
    match asked {
        Some(id) if trimmed(id).len() > 0 => Some(trimmed(id)),
        _ => None,
    }
}

fn asked_instance<'a>(asked: Option<&'a str>) -> (r: Option<&'a str>)
    ensures
        r.deep_view() == preferred_instance(asked.deep_view()),
{
    match asked {
        Some(id) => {
            let short = trim(id);
            if short.is_empty() {
                None
            } else {
                Some(short)
            }
        },
        None => None,
    }
}

/// The match whose file is shown, among those that were found.
pub open spec fn shown_match(matches: Seq<DiskModel>, asked: Option<Seq<char>>) -> DiskModel {
    matches[chosen_match(matches, preferred_instance(asked))]
}

/// The path of the file that the timeline of a session is read from, where there is one.
pub fn timeline_source(matches: &Vec<MatchOnDisk>, preferred_instance_id: Option<&str>) -> (r: Option<
    String,
>)
    ensures
        match r {
            Some(path) => {
                let m = shown_match(matches.deep_view(), preferred_instance_id.deep_view());
                matches@.len() > 0 && file_there(m) && m.item.snapshot.rollout_path == Some(path@)
            },
            None => matches@.len() > 0 ==> !file_there(
                shown_match(matches.deep_view(), preferred_instance_id.deep_view()),
            ),
        },
{
    match choose_session_match(matches, asked_instance(preferred_instance_id)) {
        Some(m) => if has_session_file(m) {
            copy_text(&m.item.snapshot.rollout_path)
        } else {
            None
        },
        None => None,
    }
}

/// What is said where no file can be shown.
pub open spec fn missing_file_warning(m: DiskModel) -> Seq<char> {
    match m.item.snapshot.rollout_path {
        None => "No session file found. Only metadata is available."@,
        Some(path) => "Session file is missing: "@ + path,
    }
}

/// The record of a session, of which at least one match was found.
pub fn record_of_matches(matches: &Vec<MatchOnDisk>) -> (r: CodexSessionViewerRecord)
    requires
        matches@.len() > 0,
    ensures
        r.deep_view() == session_record(matches.deep_view()),
{
    let ghost all = matches.deep_view();
    let ghost bare = bare_record(all[0].item.snapshot);
    let mut record = build_record_from_snapshot(&matches[0].item.snapshot);
    let mut i: usize = 0;
    proof {
        assert(all.take(0).len() == 0);
    }
    while i < matches.len()
        invariant
            all == matches.deep_view(),
            i <= matches@.len(),
            record.deep_view() == merged_all(bare, all.take(i as int)),
        decreases matches@.len() - i,
    {
        proof {
            assert(all.take(i + 1).drop_last() =~= all.take(i as int));
            assert(all.take(i + 1).last() == matches@[i as int].deep_view());
        }
        let m = &matches[i];
        merge_snapshot_into_record(
            &mut record,
            &m.item.instance,
            m.item.running,
            m.favorited,
            &m.item.snapshot,
        );
        i += 1;
    }
    proof {
        assert(all.take(i as int) =~= all);
    }
    record
}

/// The record of a session and the events in its file. `collected` are the matches on the session, or
/// why they could not be collected; `file` is what was read of the file that `timeline_source` names,
/// line by line, or why it could not be opened, and counts only where there is such a file.
pub fn get_session_timeline(
    session_id: &str,
    preferred_instance_id: Option<&str>,
    collected: Result<Vec<MatchOnDisk>, String>,
    file: Result<Vec<Result<String, String>>, String>,
) -> (r: Result<CodexSessionTimeline, String>)
    ensures
        match collected {
            Err(e) => r matches Err(message) && message@ == e@,
            Ok(found) => if found@.len() == 0 {
                r matches Err(message) && message@ == "Session not found: "@ + session_id@
            } else {
                let m = shown_match(found.deep_view(), preferred_instance_id.deep_view());
                if file_there(m) {
                    match file {
                        Err(e) => r matches Err(message) && message@ == e@,
                        Ok(lines) => r matches Ok(t) && t.session.deep_view() == session_record(
                            found.deep_view(),
                        ) && t.events.deep_view() == timeline_events(lines_model(lines@))
                            && t.warnings.deep_view() == timeline_warnings(lines_model(lines@)),
                    }
                } else {
                    r matches Ok(t) && t.session.deep_view() == session_record(found.deep_view())
                        && t.events@.len() == 0 && t.warnings.deep_view() == seq![
                        missing_file_warning(m),
                    ]
                }
            },
        },
{
    let found = match collected {
        Ok(found) => found,
        Err(e) => {
            return Err(e);
        },
    };
    if found.len() == 0 {
        let mut message = "Session not found: ".to_owned();
        message.append(session_id);
        return Err(message);
    }
    let session = record_of_matches(&found);
    let mut warnings: Vec<String> = Vec::new();
    match choose_session_match(&found, asked_instance(preferred_instance_id)) {
        Some(m) => {
            if has_session_file(m) {
                return match file {
                    Ok(lines) => {
                        let (events, warnings) = parse_timeline_from_file(&lines);
                        Ok(CodexSessionTimeline { session, events, warnings })
                    },
                    Err(e) => Err(e),
                };
            }
            let warning = match &m.item.snapshot.rollout_path {
                None => "No session file found. Only metadata is available.".to_owned(),
                Some(path) => {
                    let mut text = "Session file is missing: ".to_owned();
                    text.append(path.as_str());
                    text
                },
            };
            warnings.push(warning);
            proof {
                assert(warnings.deep_view() =~= seq![missing_file_warning(m.deep_view())]);
            }
        },
        None => {},
    }
    Ok(CodexSessionTimeline { session, events: Vec::new(), warnings })
}

// ---------------------------------------------------------------------------------------------
// Laws
// ---------------------------------------------------------------------------------------------
/// The places where a session is found, in the order of the matches.
pub open spec fn places(matches: Seq<DiskModel>) -> Seq<LocationModel> {
    matches.map_values(
        |m: DiskModel| location_of(m.item.instance, m.item.running, m.item.snapshot),
    )
}

proof fn lemma_merged_all(record: RecordModel, matches: Seq<DiskModel>)
    requires
        record.locations.len() == 0,
        record.location_count == 0,
    ensures
        ({
            let r = merged_all(record, matches);
            &&& r.locations == ranked(places(matches), |m: LocationModel| location_key(m))
            &&& r.location_count == matches.len()
            &&& r.is_favorite <==> (record.is_favorite || exists|i: int|
                0 <= i < matches.len() && (#[trigger] matches[i]).favorited)
            &&& or_zero(r.updated_at) >= or_zero(record.updated_at)
            &&& forall|i: int|
                0 <= i < matches.len() ==> or_zero(
                    (#[trigger] matches[i]).item.snapshot.updated_at,
                ) <= or_zero(r.updated_at)
            &&& r.updated_at == record.updated_at || exists|i: int|
                0 <= i < matches.len() && (#[trigger] matches[i]).item.snapshot.updated_at
                    == r.updated_at
            &&& (record.created_at matches Some(t) ==> r.created_at matches Some(c) && c <= t)
            &&& forall|i: int|
                0 <= i < matches.len() ==> ((
                #[trigger] matches[i]).item.snapshot.created_at matches Some(t)
                    ==> r.created_at matches Some(c) && c <= t)
            &&& r.created_at == record.created_at || exists|i: int|
                0 <= i < matches.len() && (#[trigger] matches[i]).item.snapshot.created_at
                    == r.created_at
        }),
    decreases matches.len(),
{
    let key = |m: LocationModel| location_key(m);
    let r = merged_all(record, matches);
    if matches.len() == 0 {
        assert(places(matches) =~= Seq::empty());
        assert(record.locations =~= Seq::empty());
    } else {
        let before = matches.drop_last();
        let last = matches.last();
        let n = matches.len() - 1;
        assert(matches[n] == last);
        let earlier_record = merged_all(record, before);
        lemma_merged_all(record, before);
        let place = location_of(last.item.instance, last.item.running, last.item.snapshot);
        let sorted = ranked(places(before), key);
        ranked_is_a_stable_sort(places(before), key);
        sorting_keeps_sorted_lists(sorted, key);
        assert(sorted.push(place).drop_last() =~= sorted);
        assert(places(matches).drop_last() =~= places(before));
        assert(places(matches).last() == place);
        ranked_is_a_stable_sort(places(matches), key);
        assert forall|i: int| 0 <= i < before.len() implies #[trigger] matches[i] == before[i] by {}
        assert forall|i: int| 0 <= i < matches.len() implies or_zero(
            (#[trigger] matches[i]).item.snapshot.updated_at,
        ) <= or_zero(r.updated_at) by {
            if i < n {
                assert(or_zero(before[i].item.snapshot.updated_at) <= or_zero(
                    earlier_record.updated_at,
                ));
            }
        }
        assert forall|i: int| 0 <= i < matches.len() implies ((
        #[trigger] matches[i]).item.snapshot.created_at matches Some(t)
            ==> r.created_at matches Some(c) && c <= t) by {
            if i < n {
                assert(before[i].item.snapshot.created_at matches Some(t)
                    ==> earlier_record.created_at matches Some(c) && c <= t);
            }
        }
        if exists|i: int| 0 <= i < before.len() && (#[trigger] before[i]).favorited {
            let i = choose|i: int| 0 <= i < before.len() && (#[trigger] before[i]).favorited;
            assert(matches[i].favorited);
        }
        if exists|i: int| 0 <= i < matches.len() && (#[trigger] matches[i]).favorited {
            let i = choose|i: int| 0 <= i < matches.len() && (#[trigger] matches[i]).favorited;
            if i < n {
                assert(before[i].favorited);
            }
        }
        if r.updated_at == earlier_record.updated_at && r.updated_at != record.updated_at {
            let i = choose|i: int|
                0 <= i < before.len() && (#[trigger] before[i]).item.snapshot.updated_at
                    == earlier_record.updated_at;
            assert(matches[i].item.snapshot.updated_at == r.updated_at);
        }
        if r.created_at == earlier_record.created_at && r.created_at != record.created_at {
            let i = choose|i: int|
                0 <= i < before.len() && (#[trigger] before[i]).item.snapshot.created_at
                    == earlier_record.created_at;
            assert(matches[i].item.snapshot.created_at == r.created_at);
        }
    }
}

/// The record of a session has one place for each instance that it is found in, sorted, and counts
/// them; it is a favorite if it is one anywhere; its time is the latest of all, and it was created
/// at the earliest time known.
pub proof fn records_sum_up_their_matches(matches: Seq<DiskModel>)
    requires
        matches.len() > 0,
    ensures
        ({
            let r = session_record(matches);
            &&& r.session_id == matches[0].item.snapshot.id
            &&& r.locations == ranked(places(matches), |m: LocationModel| location_key(m))
            &&& r.location_count == r.locations.len() == matches.len()
            &&& r.is_favorite <==> exists|i: int|
                0 <= i < matches.len() && (#[trigger] matches[i]).favorited
            &&& forall|i: int|
                0 <= i < matches.len() ==> or_zero(
                    (#[trigger] matches[i]).item.snapshot.updated_at,
                ) <= or_zero(r.updated_at)
            &&& exists|i: int|
                0 <= i < matches.len() && (#[trigger] matches[i]).item.snapshot.updated_at
                    == r.updated_at
            &&& forall|i: int|
                0 <= i < matches.len() ==> ((
                #[trigger] matches[i]).item.snapshot.created_at matches Some(t)
                    ==> r.created_at matches Some(c) && c <= t)
            &&& exists|i: int|
                0 <= i < matches.len() && (#[trigger] matches[i]).item.snapshot.created_at
                    == r.created_at
        }),
{
    let bare = bare_record(matches[0].item.snapshot);
    lemma_merged_all(bare, matches);
    lemma_merged_name(bare, matches);
    ranked_is_a_stable_sort(places(matches), |m: LocationModel| location_key(m));
    let r = session_record(matches);
    if r.updated_at == bare.updated_at {
        assert(matches[0].item.snapshot.updated_at == r.updated_at);
    }
    if r.created_at == bare.created_at {
        assert(matches[0].item.snapshot.created_at == r.created_at);
    }
}

/// Every session that was found is listed, and listed once, as the record of all its matches; and
/// there is only one such list.
pub proof fn found_sessions_are_listed_once(matches: Seq<DiskModel>, list: Seq<RecordModel>)
    requires
        is_record_list(list, all_records(matches)),
    ensures
        forall|j: int|
            0 <= j < matches.len() ==> exists|i: int|
                0 <= i < list.len() && record_name(#[trigger] list[i]) == lowercase(
                    (#[trigger] matches[j]).item.snapshot.id,
                ) && list[i] == session_record(on_session(matches, record_name(list[i]))),
        forall|i: int, j: int|
            0 <= i < j < list.len() ==> record_name(#[trigger] list[i]) != record_name(
                #[trigger] list[j],
            ),
        forall|i: int|
            0 <= i < list.len() ==> on_session(matches, record_name(#[trigger] list[i])).len() > 0,
        forall|other: Seq<RecordModel>|
            is_record_list(other, all_records(matches)) ==> #[trigger] other.len() == list.len()
                && other == list,
{
    let key = |m: RecordModel| record_key(m);
    let name = |m: RecordModel| record_name(m);
    let records = all_records(matches);
    assert forall|j: int| 0 <= j < matches.len() implies exists|i: int|
        0 <= i < list.len() && record_name(#[trigger] list[i]) == lowercase(
            (#[trigger] matches[j]).item.snapshot.id,
        ) && list[i] == session_record(on_session(matches, record_name(list[i]))) by {
        let k = lowercase(matches[j].item.snapshot.id);
        lemma_on_session(matches, j);
        assert(records.contains_key(k));
        let i = choose|i: int| 0 <= i < list.len() && name(#[trigger] list[i]) == k;
        assert(lookup(records, name(list[i])) == Some(list[i]));
        assert(record_name(list[i]) == k);
    }
    assert forall|i: int, j: int| 0 <= i < j < list.len() implies record_name(#[trigger] list[i])
        != record_name(#[trigger] list[j]) by {
        assert(name(list[i]) != name(list[j]));
    }
    assert forall|i: int| 0 <= i < list.len() implies on_session(
        matches,
        record_name(#[trigger] list[i]),
    ).len() > 0 by {
        assert(lookup(records, name(list[i])) == Some(list[i]));
    }
    assert forall|other: Seq<RecordModel>|
        is_record_list(other, records) implies #[trigger] other.len() == list.len() && other
        == list by {
        listings_are_settled(list, records, key, name);
        listings_are_settled(other, records, key, name);
    }
}

/// The matches without what the disk says of them.
pub open spec fn bare_matches(matches: Seq<DiskModel>) -> Seq<MatchModel> {
    matches.map_values(|m: DiskModel| m.item)
}

/// Every session of every instance is shown: once the sessions of all instances were collected, each
/// of them has a record in the list.
pub proof fn all_sessions_are_shown(
    states: Seq<StateModel>,
    matches: Seq<DiskModel>,
    list: Seq<RecordModel>,
)
    requires
        session_matches(states, None) == Ok::<Seq<MatchModel>, Seq<char>>(bare_matches(matches)),
        is_record_list(list, all_records(matches)),
    ensures
        forall|n: int, k: int|
            0 <= n < states.len() && 0 <= k < state_sessions(states[n])->Ok_0.len() ==> exists|i: int|
                0 <= i < list.len() && record_name(#[trigger] list[i]) == lowercase(
                    (#[trigger] state_sessions(states[n])->Ok_0[k]).id,
                ),
        forall|n: int| 0 <= n < states.len() ==> (#[trigger] state_sessions(states[n])) is Ok,
{
    found_sessions_are_listed_once(matches, list);
    lemma_all_collected(states, bare_matches(matches));
    assert forall|n: int, k: int|
        0 <= n < states.len() && 0 <= k < state_sessions(states[n])->Ok_0.len() implies exists|i: int|
        0 <= i < list.len() && record_name(#[trigger] list[i]) == lowercase(
            (#[trigger] state_sessions(states[n])->Ok_0[k]).id,
        ) by {
        let snapshot = state_sessions(states[n])->Ok_0[k];
        let j = choose|j: int|
            0 <= j < matches.len() && (#[trigger] bare_matches(matches)[j]).snapshot == snapshot;
        assert(matches[j].item.snapshot == snapshot);
    }
}

/// The matches on one session, by its identifier in lower case.
pub open spec fn found_on_session(found: Seq<MatchModel>, key: Seq<char>) -> Seq<MatchModel>
    decreases found.len(),
{
    if found.len() == 0 {
        Seq::empty()
    } else {
        let before = found_on_session(found.drop_last(), key);
        if lowercase(found.last().snapshot.id) == key {
            before.push(found.last())
        } else {
            before
        }
    }
}

/// Who looks for one session finds what the list of all sessions sums up: the matches on the session
/// are those from which its record in the list is made, in the same order.
pub proof fn one_session_is_found_as_listed(
    states: Seq<StateModel>,
    matches: Seq<DiskModel>,
    session_id: Seq<char>,
)
    requires
        session_matches(states, None) == Ok::<Seq<MatchModel>, Seq<char>>(bare_matches(matches)),
    ensures
        session_matches(states, Some(session_id)) == Ok::<Seq<MatchModel>, Seq<char>>(
            bare_matches(on_session(matches, lowercase(session_id))),
        ),
{
    lemma_found_on_session(states, bare_matches(matches), session_id);
    lemma_bare_on_session(matches, lowercase(session_id));
}

/// Whether matches are favorites where the directories of their backups exist, and nowhere else.
pub open spec fn favorites_seen(matches: Seq<DiskModel>, disk: Set<Seq<Seq<char>>>) -> bool {
    forall|i: int|
        0 <= i < matches.len() ==> (#[trigger] matches[i]).favorited == disk.contains(
            backup_dir(matches[i].item),
        )
}

proof fn lemma_seen_on_session(
    matches: Seq<DiskModel>,
    disk: Set<Seq<Seq<char>>>,
    key: Seq<char>,
)
    requires
        favorites_seen(matches, disk),
    ensures
        favorites_seen(on_session(matches, key), disk),
    decreases matches.len(),
{
    if matches.len() > 0 {
        let before = matches.drop_last();
        assert forall|i: int| 0 <= i < before.len() implies (#[trigger] before[i]).favorited
            == disk.contains(backup_dir(before[i].item)) by {
            assert(before[i] == matches[i]);
        }
        lemma_seen_on_session(before, disk, key);
        let last = matches[matches.len() - 1];
        assert(last.favorited == disk.contains(backup_dir(last.item)));
        let list = on_session(matches, key);
        assert forall|i: int| 0 <= i < list.len() implies (#[trigger] list[i]).favorited
            == disk.contains(backup_dir(list[i].item)) by {
            if i < on_session(before, key).len() {
                assert(list[i] == on_session(before, key)[i]);
            }
        }
    }
}

/// Once a session was made a favorite, wherever it was found, the list of all sessions shows it as
/// one. `disk` are the directories that existed before, and `found` where the session was found.
pub proof fn favorites_are_shown(
    states: Seq<StateModel>,
    matches: Seq<DiskModel>,
    list: Seq<RecordModel>,
    session_id: Seq<char>,
    found: Seq<MatchModel>,
    disk: Set<Seq<Seq<char>>>,
)
    requires
        session_matches(states, None) == Ok::<Seq<MatchModel>, Seq<char>>(bare_matches(matches)),
        session_matches(states, Some(session_id)) == Ok::<Seq<MatchModel>, Seq<char>>(found),
        found.len() > 0,
        favorites_seen(matches, with_backups(disk, found)),
        is_record_list(list, all_records(matches)),
    ensures
        exists|i: int|
            0 <= i < list.len() && record_name(#[trigger] list[i]) == lowercase(session_id),
        forall|i: int|
            0 <= i < list.len() && record_name(#[trigger] list[i]) == lowercase(session_id)
                ==> list[i].is_favorite,
{
    let key = lowercase(session_id);
    let on = on_session(matches, key);
    one_session_is_found_as_listed(states, matches, session_id);
    backups_that_were_made_exist(disk, found);
    lemma_seen_on_session(matches, with_backups(disk, found), key);
    records_sum_up_their_matches(on);
    lemma_record_in_list(matches, list, key);
    assert(bare_matches(on)[0] == found[0]);
    assert(on[0].favorited);
}

/// Once a session was made no favorite any more, wherever it was found, the list of all sessions shows
/// it as none.
pub proof fn removed_favorites_are_not_shown(
    states: Seq<StateModel>,
    matches: Seq<DiskModel>,
    list: Seq<RecordModel>,
    session_id: Seq<char>,
    found: Seq<MatchModel>,
    disk: Set<Seq<Seq<char>>>,
)
    requires
        session_matches(states, None) == Ok::<Seq<MatchModel>, Seq<char>>(bare_matches(matches)),
        session_matches(states, Some(session_id)) == Ok::<Seq<MatchModel>, Seq<char>>(found),
        found.len() > 0,
        favorites_seen(matches, without_backups(disk, found)),
        is_record_list(list, all_records(matches)),
    ensures
        exists|i: int|
            0 <= i < list.len() && record_name(#[trigger] list[i]) == lowercase(session_id),
        forall|i: int|
            0 <= i < list.len() && record_name(#[trigger] list[i]) == lowercase(session_id)
                ==> !list[i].is_favorite,
{
    let key = lowercase(session_id);
    let on = on_session(matches, key);
    one_session_is_found_as_listed(states, matches, session_id);
    backups_that_were_removed_are_gone(disk, found);
    lemma_seen_on_session(matches, without_backups(disk, found), key);
    records_sum_up_their_matches(on);
    lemma_record_in_list(matches, list, key);
    assert forall|i: int| 0 <= i < on.len() implies !(#[trigger] on[i]).favorited by {
        assert(bare_matches(on)[i] == found[i]);
    }
}

proof fn lemma_record_in_list(matches: Seq<DiskModel>, list: Seq<RecordModel>, key: Seq<char>)
    requires
        is_record_list(list, all_records(matches)),
        on_session(matches, key).len() > 0,
    ensures
        exists|i: int| 0 <= i < list.len() && record_name(#[trigger] list[i]) == key,
        forall|i: int|
            0 <= i < list.len() && record_name(#[trigger] list[i]) == key ==> list[i]
                == session_record(on_session(matches, key)),
{
    let name = |m: RecordModel| record_name(m);
    let records = all_records(matches);
    assert(records.contains_key(key));
    let i = choose|i: int| 0 <= i < list.len() && name(#[trigger] list[i]) == key;
    assert(record_name(list[i]) == key);
    assert forall|i: int| 0 <= i < list.len() && record_name(#[trigger] list[i]) == key implies list[i]
        == session_record(on_session(matches, key)) by {
        assert(lookup(records, name(list[i])) == Some(list[i]));
    }
}

proof fn lemma_bare_on_session(matches: Seq<DiskModel>, key: Seq<char>)
    ensures
        bare_matches(on_session(matches, key)) == found_on_session(bare_matches(matches), key),
    decreases matches.len(),
{
    if matches.len() == 0 {
        assert(bare_matches(on_session(matches, key)) =~= found_on_session(
            bare_matches(matches),
            key,
        ));
    } else {
        let before = matches.drop_last();
        lemma_bare_on_session(before, key);
        assert(bare_matches(matches).drop_last() =~= bare_matches(before));
        assert(bare_matches(on_session(matches, key)) =~= found_on_session(
            bare_matches(matches),
            key,
        ));
    }
}

proof fn lemma_found_in_two_parts(a: Seq<MatchModel>, b: Seq<MatchModel>, key: Seq<char>)
    ensures
        found_on_session(a + b, key) == found_on_session(a, key) + found_on_session(b, key),
    decreases b.len(),
{
    if b.len() == 0 {
        assert(a + b =~= a);
        assert(found_on_session(a, key) + found_on_session(b, key) =~= found_on_session(a, key));
    } else {
        lemma_found_in_two_parts(a, b.drop_last(), key);
        assert((a + b).drop_last() =~= a + b.drop_last());
        assert(found_on_session(a + b, key) =~= found_on_session(a, key) + found_on_session(b, key));
    }
}

proof fn lemma_wanted_on_session(
    list: Seq<SnapshotModel>,
    instance: InstanceModel,
    running: bool,
    session_id: Seq<char>,
)
    ensures
        wanted_matches(list, instance, running, Some(session_id)) == found_on_session(
            wanted_matches(list, instance, running, None),
            lowercase(session_id),
        ),
    decreases list.len(),
{
    if list.len() > 0 {
        lemma_wanted_on_session(list.drop_last(), instance, running, session_id);
        assert(wanted_matches(list, instance, running, None).drop_last() =~= wanted_matches(
            list.drop_last(),
            instance,
            running,
            None,
        ));
    }
}

proof fn lemma_found_on_session(
    states: Seq<StateModel>,
    found: Seq<MatchModel>,
    session_id: Seq<char>,
)
    requires
        session_matches(states, None) == Ok::<Seq<MatchModel>, Seq<char>>(found),
    ensures
        session_matches(states, Some(session_id)) == Ok::<Seq<MatchModel>, Seq<char>>(
            found_on_session(found, lowercase(session_id)),
        ),
    decreases states.len(),
{
    if states.len() > 0 {
        let before = states.drop_last();
        let state = states.last();
        let earlier = session_matches(before, None)->Ok_0;
        let list = state_sessions(state)->Ok_0;
        lemma_found_on_session(before, earlier, session_id);
        lemma_wanted_on_session(list, state.instance, state.running, session_id);
        lemma_found_in_two_parts(
            earlier,
            wanted_matches(list, state.instance, state.running, None),
            lowercase(session_id),
        );
    } else {
        assert(found =~= Seq::empty());
    }
}

proof fn lemma_all_collected(states: Seq<StateModel>, found: Seq<MatchModel>)
    requires
        session_matches(states, None) == Ok::<Seq<MatchModel>, Seq<char>>(found),
    ensures
        forall|n: int| 0 <= n < states.len() ==> (#[trigger] state_sessions(states[n])) is Ok,
        forall|n: int, k: int|
            0 <= n < states.len() && 0 <= k < state_sessions(states[n])->Ok_0.len() ==> exists|j: int|
                0 <= j < found.len() && (#[trigger] found[j]).snapshot
                    == #[trigger] state_sessions(states[n])->Ok_0[k],
    decreases states.len(),
{
    if states.len() > 0 {
        let before = states.drop_last();
        let state = states.last();
        let earlier = session_matches(before, None)->Ok_0;
        lemma_all_collected(before, earlier);
        let list = state_sessions(state)->Ok_0;
        let added = wanted_matches(list, state.instance, state.running, None);
        lemma_all_wanted(list, state.instance, state.running);
        assert(found =~= earlier + added);
        assert forall|n: int| 0 <= n < states.len() implies (#[trigger] state_sessions(
            states[n],
        )) is Ok by {
            if n < before.len() {
                assert(states[n] == before[n]);
                assert(state_sessions(before[n]) is Ok);
            }
        }
        assert forall|n: int, k: int|
            0 <= n < states.len() && 0 <= k < state_sessions(states[n])->Ok_0.len() implies exists|
            j: int,
        |
            0 <= j < found.len() && (#[trigger] found[j]).snapshot == #[trigger] state_sessions(
                states[n],
            )->Ok_0[k] by {
            if n < before.len() {
                assert(states[n] == before[n]);
                let j = choose|j: int|
                    0 <= j < earlier.len() && (#[trigger] earlier[j]).snapshot == state_sessions(
                        before[n],
                    )->Ok_0[k];
                assert(found[j] == earlier[j]);
            } else {
                assert(added[k].snapshot == list[k]);
                assert(found[earlier.len() + k] == added[k]);
            }
        }
    }
}

proof fn lemma_all_wanted(list: Seq<SnapshotModel>, instance: InstanceModel, running: bool)
    ensures
        wanted_matches(list, instance, running, None).len() == list.len(),
        forall|k: int|
            0 <= k < list.len() ==> (#[trigger] wanted_matches(list, instance, running, None)[k])
                == (MatchModel { instance, running, snapshot: list[k] }),
    decreases list.len(),
{
    if list.len() > 0 {
        lemma_all_wanted(list.drop_last(), instance, running);
    }
}

proof fn lemma_on_session(matches: Seq<DiskModel>, j: int)
    requires
        0 <= j < matches.len(),
    ensures
        on_session(matches, lowercase(matches[j].item.snapshot.id)).len() > 0,
    decreases matches.len(),
{
    if j < matches.len() - 1 {
        lemma_on_session(matches.drop_last(), j);
    }
}

proof fn lemma_best_match(matches: Seq<DiskModel>)
    requires
        matches.len() > 0,
    ensures
        0 <= best_match(matches) < matches.len(),
        forall|j: int|
            0 <= j < matches.len() ==> !outranks(#[trigger] matches[j], matches[best_match(matches)]),
        forall|j: int|
            best_match(matches) < j < matches.len() ==> outranks(
                matches[best_match(matches)],
                #[trigger] matches[j],
            ),
    decreases matches.len(),
{
    if matches.len() > 1 {
        let before = matches.drop_last();
        lemma_best_match(before);
        let b = best_match(before);
        assert forall|j: int| 0 <= j < matches.len() implies !outranks(
            #[trigger] matches[j],
            matches[best_match(matches)],
        ) by {
            if j < before.len() {
                assert(!outranks(before[j], before[b]));
                assert(matches[j] == before[j]);
            }
        }
        assert forall|j: int| best_match(matches) < j < matches.len() implies outranks(
            matches[best_match(matches)],
            #[trigger] matches[j],
        ) by {
            if j < before.len() {
                assert(outranks(before[b], before[j]));
            }
        }
    }
}

/// The timeline of a session is read from a file that exists, as long as any instance has one,
/// whichever instance is preferred; the file of the preferred instance is shown where it exists; and
/// where no instance is preferred no better match is passed over.
pub proof fn existing_files_are_shown(matches: Seq<DiskModel>, asked: Option<Seq<char>>)
    requires
        matches.len() > 0,
    ensures
        0 <= chosen_match(matches, preferred_instance(asked)) < matches.len(),
        (exists|j: int| 0 <= j < matches.len() && file_there(#[trigger] matches[j])) ==> file_there(
            shown_match(matches, asked),
        ),
        preferred_instance(asked) matches Some(id) ==> ({
            let first = first_in_instance(matches, id);
            first < matches.len() && file_there(matches[first]) ==> shown_match(matches, asked)
                == matches[first] && matches[first].item.instance.id == id
        }),
        preferred_instance(asked) is None ==> forall|j: int|
            0 <= j < matches.len() ==> !outranks(#[trigger] matches[j], shown_match(matches, asked)),
{
    lemma_best_match(matches);
    if let Some(id) = preferred_instance(asked) {
        lemma_first_bounds(matches, id);
    }
    if exists|j: int| 0 <= j < matches.len() && file_there(#[trigger] matches[j]) {
        let j = choose|j: int| 0 <= j < matches.len() && file_there(#[trigger] matches[j]);
        assert(!outranks(matches[j], matches[best_match(matches)]));
    }
}

proof fn lemma_first_bounds(matches: Seq<DiskModel>, instance_id: Seq<char>)
    ensures
        0 <= first_in_instance(matches, instance_id) <= matches.len(),
        first_in_instance(matches, instance_id) < matches.len() ==> matches[first_in_instance(
            matches,
            instance_id,
        )].item.instance.id == instance_id,
    decreases matches.len(),
{
    if matches.len() > 0 && matches[0].item.instance.id != instance_id {
        lemma_first_bounds(matches.drop_first(), instance_id);
    }
}

/// When a session was changed in an instance, as a number; zero where that is not known.
pub open spec fn found_time(m: DiskModel) -> int {
    match m.item.snapshot.updated_at {
        Some(t) => t as int,
        None => 0,
    }
}

/// Whether one of the matches names a title, or the session has an identifier for one.
pub open spec fn titled(matches: Seq<DiskModel>) -> bool {
    ||| !is_blank(matches[0].item.snapshot.id)
    ||| exists|i: int| 0 <= i < matches.len() && !is_blank((#[trigger] matches[i]).item.snapshot.title)
}

/// Whether one of the matches names a directory.
pub open spec fn placed(matches: Seq<DiskModel>) -> bool {
    exists|i: int| 0 <= i < matches.len() && !is_blank((#[trigger] matches[i]).item.snapshot.cwd)
}

/// Whether one of the matches names a provider.
pub open spec fn provided(matches: Seq<DiskModel>) -> bool {
    exists|i: int|
        0 <= i < matches.len() && !is_blank((#[trigger] matches[i]).item.snapshot.model_provider)
}

/// Whether one of the matches has a session file.
pub open spec fn filed(matches: Seq<DiskModel>) -> bool {
    exists|i: int|
        0 <= i < matches.len() && (#[trigger] matches[i]).item.snapshot.rollout_path is Some
}

/// Whether a match says something of a session that none of the matches before it says.
pub open spec fn says_more(matches: Seq<DiskModel>, m: DiskModel) -> bool {
    ||| !titled(matches) && !is_blank(m.item.snapshot.title)
    ||| !placed(matches) && !is_blank(m.item.snapshot.cwd)
    ||| !provided(matches) && !is_blank(m.item.snapshot.model_provider)
    ||| !filed(matches) && m.item.snapshot.rollout_path is Some
}

proof fn lemma_record_filled(matches: Seq<DiskModel>)
    requires
        matches.len() > 0,
    ensures
        ({
            let r = session_record(matches);
            &&& r.session_path is Some <==> filed(matches)
            &&& !is_blank(r.cwd) <==> placed(matches)
            &&& !is_blank(r.model_provider) <==> provided(matches)
            &&& !is_blank(r.title) <==> titled(matches)
        }),
    decreases matches.len(),
{
    let n = matches.len() - 1;
    let last = matches[n];
    let r = session_record(matches);
    if n == 0 {
        assert(matches.drop_last() =~= Seq::<DiskModel>::empty());
        assert(merged_all(bare_record(last.item.snapshot), matches.drop_last()) == bare_record(
            last.item.snapshot,
        ));
        assert(filed(matches) <==> matches[0].item.snapshot.rollout_path is Some);
        assert(placed(matches) <==> !is_blank(matches[0].item.snapshot.cwd));
        assert(provided(matches) <==> !is_blank(matches[0].item.snapshot.model_provider));
        assert(titled(matches) <==> !is_blank(matches[0].item.snapshot.title) || !is_blank(
            matches[0].item.snapshot.id,
        ));
    } else {
        let before = matches.drop_last();
        lemma_record_filled(before);
        assert(before[0] == matches[0]);
        lemma_more_matches(before, last);
        assert(before.push(last) =~= matches);
    }
}

proof fn lemma_more_matches(before: Seq<DiskModel>, last: DiskModel)
    requires
        before.len() > 0,
    ensures
        filed(before.push(last)) <==> filed(before) || last.item.snapshot.rollout_path is Some,
        placed(before.push(last)) <==> placed(before) || !is_blank(last.item.snapshot.cwd),
        provided(before.push(last)) <==> provided(before) || !is_blank(
            last.item.snapshot.model_provider,
        ),
        titled(before.push(last)) <==> titled(before) || !is_blank(last.item.snapshot.title),
{
    let matches = before.push(last);
    let n = before.len() as int;
    assert(matches[n] == last);
    assert forall|i: int| 0 <= i < n implies #[trigger] matches[i] == before[i] by {}
    if filed(before) {
        let i = choose|i: int|
            0 <= i < before.len() && (#[trigger] before[i]).item.snapshot.rollout_path is Some;
        assert(matches[i].item.snapshot.rollout_path is Some);
    }
    if placed(before) {
        let i = choose|i: int|
            0 <= i < before.len() && !is_blank((#[trigger] before[i]).item.snapshot.cwd);
        assert(!is_blank(matches[i].item.snapshot.cwd));
    }
    if provided(before) {
        let i = choose|i: int|
            0 <= i < before.len() && !is_blank(
                (#[trigger] before[i]).item.snapshot.model_provider,
            );
        assert(!is_blank(matches[i].item.snapshot.model_provider));
    }
    if titled(before) && is_blank(before[0].item.snapshot.id) {
        let i = choose|i: int|
            0 <= i < before.len() && !is_blank((#[trigger] before[i]).item.snapshot.title);
        assert(!is_blank(matches[i].item.snapshot.title));
    }
    if filed(matches) {
        let i = choose|i: int|
            0 <= i < matches.len() && (#[trigger] matches[i]).item.snapshot.rollout_path is Some;
        assert(i < n ==> before[i].item.snapshot.rollout_path is Some);
    }
    if placed(matches) {
        let i = choose|i: int|
            0 <= i < matches.len() && !is_blank((#[trigger] matches[i]).item.snapshot.cwd);
        assert(i < n ==> !is_blank(before[i].item.snapshot.cwd));
    }
    if provided(matches) {
        let i = choose|i: int|
            0 <= i < matches.len() && !is_blank(
                (#[trigger] matches[i]).item.snapshot.model_provider,
            );
        assert(i < n ==> !is_blank(before[i].item.snapshot.model_provider));
    }
    if titled(matches) && is_blank(before[0].item.snapshot.id) {
        let i = choose|i: int|
            0 <= i < matches.len() && !is_blank((#[trigger] matches[i]).item.snapshot.title);
        assert(i < n ==> !is_blank(before[i].item.snapshot.title));
    }
}

proof fn lemma_one_more_match(matches: Seq<DiskModel>, m: DiskModel)
    requires
        matches.len() > 0,
    ensures
        session_record(matches.push(m)) == merged_record(
            session_record(matches),
            m.item.instance,
            m.item.running,
            m.favorited,
            m.item.snapshot,
        ),
        session_record(matches).updated_at matches Some(t) ==> exists|i: int|
            0 <= i < matches.len() && (#[trigger] matches[i]).item.snapshot.updated_at == Some(t),
        forall|i: int|
            0 <= i < matches.len() ==> found_time(#[trigger] matches[i]) <= or_zero(
                session_record(matches).updated_at,
            ),
        exists|i: int|
            0 <= i < matches.len() && found_time(#[trigger] matches[i]) == or_zero(
                session_record(matches).updated_at,
            ),
{
    records_sum_up_their_matches(matches);
    assert(matches.push(m).drop_last() =~= matches);
    assert(matches.push(m)[0] == matches[0]);
    assert forall|i: int| 0 <= i < matches.len() implies found_time(#[trigger] matches[i])
        <= or_zero(session_record(matches).updated_at) by {
        assert(or_zero(matches[i].item.snapshot.updated_at) <= or_zero(
            session_record(matches).updated_at,
        ));
    }
    let i = choose|i: int|
        0 <= i < matches.len() && (#[trigger] matches[i]).item.snapshot.updated_at
            == session_record(matches).updated_at;
    assert(found_time(matches[i]) == or_zero(session_record(matches).updated_at));
}

/// A session that was found in one instance has the directory, the provider, the path and the times
/// that this instance knows, and its title, or else its identifier for one.
pub proof fn one_match_is_the_record(m: DiskModel)
    ensures
        ({
            let r = session_record(seq![m]);
            &&& r.session_id == m.item.snapshot.id
            &&& r.cwd == m.item.snapshot.cwd
            &&& r.model_provider == m.item.snapshot.model_provider
            &&& r.session_path == m.item.snapshot.rollout_path
            &&& r.updated_at == m.item.snapshot.updated_at
            &&& r.created_at == m.item.snapshot.created_at
            &&& !is_blank(m.item.snapshot.title) ==> r.title == m.item.snapshot.title
            &&& is_blank(m.item.snapshot.title) ==> r.title == m.item.snapshot.id
            &&& r.is_favorite == m.favorited
            &&& r.location_count == 1
        }),
{
    let matches = seq![m];
    records_sum_up_their_matches(matches);
    assert(matches.drop_last() =~= Seq::<DiskModel>::empty());
    let bare = bare_record(m.item.snapshot);
    assert(merged_all(bare, matches.drop_last()) == bare);
    let r = session_record(matches);
    assert(r == merged_record(
        bare,
        m.item.instance,
        m.item.running,
        m.favorited,
        m.item.snapshot,
    ));
    assert(matches[0] == m);
    assert(r.is_favorite == m.favorited);
}

/// A session that is found in one more instance takes over what that instance knows, where it is later
/// there than anywhere before, or where something is said of it that was not said before: the title,
/// the directory, the provider and the path, as far as they are named.
pub proof fn later_matches_take_over(matches: Seq<DiskModel>, m: DiskModel)
    requires
        matches.len() > 0,
        says_more(matches, m) || forall|i: int|
            0 <= i < matches.len() ==> found_time(#[trigger] matches[i]) < found_time(m),
    ensures
        ({
            let before = session_record(matches);
            let r = session_record(matches.push(m));
            let s = m.item.snapshot;
            &&& r.title == if is_blank(s.title) {
                before.title
            } else {
                s.title
            }
            &&& r.cwd == if is_blank(s.cwd) {
                before.cwd
            } else {
                s.cwd
            }
            &&& r.model_provider == if is_blank(s.model_provider) {
                before.model_provider
            } else {
                s.model_provider
            }
            &&& r.session_path == if s.rollout_path is None {
                before.session_path
            } else {
                s.rollout_path
            }
        }),
{
    lemma_one_more_match(matches, m);
    lemma_record_filled(matches);
    let before = session_record(matches);
    if !says_more(matches, m) {
        let i = choose|i: int|
            0 <= i < matches.len() && found_time(#[trigger] matches[i]) == or_zero(
                before.updated_at,
            );
        assert(found_time(matches[i]) < found_time(m));
    }
}

/// A session that is found in one more instance keeps what was known of it, where it is not later there
/// than everywhere before and nothing is said of it that was not said before.
pub proof fn earlier_matches_change_nothing(matches: Seq<DiskModel>, m: DiskModel, j: int)
    requires
        0 <= j < matches.len(),
        found_time(m) <= found_time(matches[j]),
        !says_more(matches, m),
    ensures
        ({
            let before = session_record(matches);
            let r = session_record(matches.push(m));
            &&& r.session_id == before.session_id
            &&& r.title == before.title
            &&& r.cwd == before.cwd
            &&& r.model_provider == before.model_provider
            &&& r.session_path == before.session_path
            &&& r.updated_at == before.updated_at
        }),
{
    lemma_one_more_match(matches, m);
    lemma_record_filled(matches);
}

/// The record of a session says what one of its matches says: its directory is that of one of them, and
/// so are its provider, its path and its title; only where the first match has no title, the title may
/// be the identifier of the session.
pub proof fn records_say_what_a_match_says(matches: Seq<DiskModel>)
    requires
        matches.len() > 0,
    ensures
        ({
            let r = session_record(matches);
            &&& exists|i: int|
                0 <= i < matches.len() && (#[trigger] matches[i]).item.snapshot.cwd == r.cwd
            &&& exists|i: int|
                0 <= i < matches.len() && (#[trigger] matches[i]).item.snapshot.model_provider
                    == r.model_provider
            &&& exists|i: int|
                0 <= i < matches.len() && (#[trigger] matches[i]).item.snapshot.rollout_path
                    == r.session_path
            &&& (exists|i: int|
                0 <= i < matches.len() && (#[trigger] matches[i]).item.snapshot.title == r.title)
                || is_blank(matches[0].item.snapshot.title) && r.title == matches[0].item.snapshot.id
        }),
    decreases matches.len(),
{
    let n = matches.len() - 1;
    let last = matches[n];
    let r = session_record(matches);
    if n == 0 {
        assert(matches =~= seq![last]);
        one_match_is_the_record(last);
        assert(matches[0].item.snapshot.cwd == r.cwd);
        assert(matches[0].item.snapshot.model_provider == r.model_provider);
        assert(matches[0].item.snapshot.rollout_path == r.session_path);
        assert(!is_blank(last.item.snapshot.title) ==> matches[0].item.snapshot.title == r.title);
    } else {
        let before = matches.drop_last();
        assert(before.push(last) =~= matches);
        records_say_what_a_match_says(before);
        lemma_one_more_match(before, last);
        let e = session_record(before);
        let a = choose|i: int|
            0 <= i < before.len() && (#[trigger] before[i]).item.snapshot.cwd == e.cwd;
        assert(matches[a] == before[a]);
        let b = choose|i: int|
            0 <= i < before.len() && (#[trigger] before[i]).item.snapshot.model_provider
                == e.model_provider;
        assert(matches[b] == before[b]);
        let c = choose|i: int|
            0 <= i < before.len() && (#[trigger] before[i]).item.snapshot.rollout_path
                == e.session_path;
        assert(matches[c] == before[c]);
        if exists|i: int|
            0 <= i < before.len() && (#[trigger] before[i]).item.snapshot.title == e.title {
            let d = choose|i: int|
                0 <= i < before.len() && (#[trigger] before[i]).item.snapshot.title == e.title;
            assert(matches[d] == before[d]);
        }
        assert(matches[0] == before[0]);
        assert(matches[n].item.snapshot == last.item.snapshot);
        assert(r.cwd == e.cwd || r.cwd == last.item.snapshot.cwd);
    }
}

/// Where all matches that name a directory name the same one, it is that of the record, and where all
/// that name a provider name the same one, it is that of the record; so it is with the title and the
/// path. A record has a directory, a provider and a path as soon as one of its matches has.
pub proof fn matches_that_agree_are_believed(matches: Seq<DiskModel>, value: Seq<char>)
    requires
        matches.len() > 0,
    ensures
        ({
            let r = session_record(matches);
            &&& placed(matches) <==> !is_blank(r.cwd)
            &&& provided(matches) <==> !is_blank(r.model_provider)
            &&& filed(matches) <==> r.session_path is Some
            &&& placed(matches) && (forall|i: int|
                0 <= i < matches.len() ==> is_blank((#[trigger] matches[i]).item.snapshot.cwd)
                    || matches[i].item.snapshot.cwd == value) ==> r.cwd == value
            &&& provided(matches) && (forall|i: int|
                0 <= i < matches.len() ==> is_blank(
                    (#[trigger] matches[i]).item.snapshot.model_provider,
                ) || matches[i].item.snapshot.model_provider == value) ==> r.model_provider == value
            &&& filed(matches) && (forall|i: int|
                0 <= i < matches.len() ==> (
                #[trigger] matches[i]).item.snapshot.rollout_path is None
                    || matches[i].item.snapshot.rollout_path == Some(value)) ==> r.session_path
                == Some(value)
            &&& !is_blank(value) && (forall|i: int|
                0 <= i < matches.len() ==> (#[trigger] matches[i]).item.snapshot.title == value)
                ==> r.title == value
        }),
{
    lemma_record_filled(matches);
    records_say_what_a_match_says(matches);
    let r = session_record(matches);
    let a = choose|i: int|
        0 <= i < matches.len() && (#[trigger] matches[i]).item.snapshot.cwd == r.cwd;
    let b = choose|i: int|
        0 <= i < matches.len() && (#[trigger] matches[i]).item.snapshot.model_provider
            == r.model_provider;
    let c = choose|i: int|
        0 <= i < matches.len() && (#[trigger] matches[i]).item.snapshot.rollout_path
            == r.session_path;
    assert(matches[a].item.snapshot.cwd == r.cwd);
    assert(matches[b].item.snapshot.model_provider == r.model_provider);
    assert(matches[c].item.snapshot.rollout_path == r.session_path);
    assert(matches[0].item.snapshot.title == matches[0].item.snapshot.title);
}

/// Where a session is later in one instance than in all others, its record has the title, the directory,
/// the provider and the path that this instance names, as far as it names them. No match that comes
/// after it may be the first to say anything of a kind, since a record takes over all that such a match
/// says.
pub proof fn the_latest_match_is_believed(matches: Seq<DiskModel>, n: int)
    requires
        0 <= n < matches.len(),
        forall|i: int|
            0 <= i < matches.len() && i != n ==> found_time(#[trigger] matches[i]) < found_time(
                matches[n],
            ),
        forall|i: int|
            n < i < matches.len() ==> !says_more(matches.take(n + 1), #[trigger] matches[i]),
    ensures
        ({
            let r = session_record(matches);
            let s = matches[n].item.snapshot;
            &&& r.updated_at == s.updated_at
            &&& !is_blank(s.title) ==> r.title == s.title
            &&& !is_blank(s.cwd) ==> r.cwd == s.cwd
            &&& !is_blank(s.model_provider) ==> r.model_provider == s.model_provider
            &&& s.rollout_path is Some ==> r.session_path == s.rollout_path
        }),
    decreases matches.len(),
{
    let last = matches[matches.len() - 1];
    let before = matches.drop_last();
    assert(before.push(last) =~= matches);
    assert forall|i: int| 0 <= i < before.len() implies #[trigger] before[i] == matches[i] by {}
    if n < matches.len() - 1 {
        assert(before.take(n + 1) =~= matches.take(n + 1));
        assert forall|i: int| 0 <= i < before.len() && i != n implies found_time(
            #[trigger] before[i],
        ) < found_time(before[n]) by {
            assert(found_time(matches[i]) < found_time(matches[n]));
        }
        assert forall|i: int| n < i < before.len() implies !says_more(
            before.take(n + 1),
            #[trigger] before[i],
        ) by {
            assert(!says_more(matches.take(n + 1), matches[i]));
        }
        the_latest_match_is_believed(before, n);
        assert(!says_more(matches.take(n + 1), matches[matches.len() - 1]));
        lemma_says_no_more(before, n + 1, last);
        assert(found_time(last) < found_time(matches[n]));
        earlier_matches_change_nothing(before, last, n);
    } else if n == 0 {
        assert(matches =~= seq![last]);
        one_match_is_the_record(last);
    } else {
        assert forall|i: int| 0 <= i < before.len() implies found_time(#[trigger] before[i])
            < found_time(last) by {
            assert(found_time(matches[i]) < found_time(matches[n]));
        }
        later_matches_take_over(before, last);
        lemma_one_more_match(before, last);
        let e = session_record(before);
        let i = choose|i: int|
            0 <= i < before.len() && found_time(#[trigger] before[i]) == or_zero(e.updated_at);
        assert(found_time(before[i]) < found_time(last));
    }
}

proof fn lemma_says_no_more(matches: Seq<DiskModel>, n: int, m: DiskModel)
    requires
        0 < n <= matches.len(),
        !says_more(matches.take(n), m),
    ensures
        !says_more(matches, m),
{
    let first = matches.take(n);
    assert forall|i: int| 0 <= i < n implies #[trigger] first[i] == matches[i] by {}
    if filed(first) {
        let i = choose|i: int|
            0 <= i < first.len() && (#[trigger] first[i]).item.snapshot.rollout_path is Some;
        assert(matches[i].item.snapshot.rollout_path is Some);
    }
    if placed(first) {
        let i = choose|i: int|
            0 <= i < first.len() && !is_blank((#[trigger] first[i]).item.snapshot.cwd);
        assert(!is_blank(matches[i].item.snapshot.cwd));
    }
    if provided(first) {
        let i = choose|i: int|
            0 <= i < first.len() && !is_blank((#[trigger] first[i]).item.snapshot.model_provider);
        assert(!is_blank(matches[i].item.snapshot.model_provider));
    }
    if titled(first) && is_blank(first[0].item.snapshot.id) {
        let i = choose|i: int|
            0 <= i < first.len() && !is_blank((#[trigger] first[i]).item.snapshot.title);
        assert(!is_blank(matches[i].item.snapshot.title));
    }
}

/// Whether a place says what a match says: the instance, whether it is running, and the path, the times,
/// the directory and the provider that it knows.
pub open spec fn is_place_of(l: LocationModel, m: DiskModel) -> bool {
    &&& l.instance_id == m.item.instance.id
    &&& l.instance_name == m.item.instance.name
    &&& l.running == m.item.running
    &&& l.session_path == m.item.snapshot.rollout_path
    &&& l.updated_at == m.item.snapshot.updated_at
    &&& l.created_at == m.item.snapshot.created_at
    &&& l.cwd == m.item.snapshot.cwd
    &&& l.model_provider == m.item.snapshot.model_provider
}

/// A record has as many places as it has matches: one for each of its matches, and each place is that of
/// a match.
pub proof fn places_are_those_of_the_matches(matches: Seq<DiskModel>, n: int)
    requires
        0 <= n < matches.len(),
    ensures
        ({
            let list = session_record(matches).locations;
            &&& list.len() == matches.len()
            &&& exists|k: int| 0 <= k < list.len() && is_place_of(#[trigger] list[k], matches[n])
            &&& exists|i: int| 0 <= i < matches.len() && is_place_of(list[n], #[trigger] matches[i])
        }),
{
    broadcast use vstd::seq_lib::group_to_multiset_ensures;

    let key = |m: LocationModel| location_key(m);
    let all = places(matches);
    let list = session_record(matches).locations;
    records_sum_up_their_matches(matches);
    ranked_is_a_stable_sort(all, key);
    assert(list.to_multiset() == all.to_multiset());
    assert(all.contains(all[n]));
    assert(all.to_multiset().contains(all[n]));
    assert(list.contains(all[n]));
    let k = choose|k: int| 0 <= k < list.len() && list[k] == all[n];
    assert(is_place_of(list[k], matches[n]));
    assert(list.contains(list[n]));
    assert(list.to_multiset().contains(list[n]));
    assert(all.contains(list[n]));
    let i = choose|i: int| 0 <= i < all.len() && all[i] == list[n];
    assert(is_place_of(list[n], matches[i]));
}

/// Among the places of a record, those in running instances come first, then those where the session is
/// later, and then the names decide.
pub proof fn places_are_listed_by_time(matches: Seq<DiskModel>, i: int, j: int)
    requires
        0 <= i < j < matches.len(),
    ensures
        ({
            let a = session_record(matches).locations[i];
            let b = session_record(matches).locations[j];
            let s: int = match a.updated_at {
                Some(t) => t as int,
                None => 0,
            };
            let t: int = match b.updated_at {
                Some(t) => t as int,
                None => 0,
            };
            &&& b.running ==> a.running
            &&& a.running == b.running ==> s >= t
            &&& a.running == b.running && s == t ==> a.instance_name == b.instance_name
                || text_less(a.instance_name, b.instance_name)
        }),
{
    let key = |m: LocationModel| location_key(m);
    let list = session_record(matches).locations;
    records_sum_up_their_matches(matches);
    ranked_is_a_stable_sort(places(matches), key);
    assert(!ahead(key(list[j]), key(list[i])));
    text_order_is_total(list[i].instance_name, list[j].instance_name);
}

/// The records are listed with the latest first; those of the same time are in the order of their
/// titles, and those of the same title in the order of their identifiers. Each is the record of all
/// matches on its session, in the order in which they were found.
pub proof fn records_are_listed_by_time(matches: Seq<DiskModel>, list: Seq<RecordModel>)
    requires
        is_record_list(list, all_records(matches)),
    ensures
        forall|i: int| #![trigger list[i]]
            0 <= i < list.len() ==> list[i] == session_record(
                matches.filter(
                    |m: DiskModel| lowercase(m.item.snapshot.id) == lowercase(list[i].session_id),
                ),
            ),
        forall|i: int, j: int|
            0 <= i < j < list.len() ==> ({
                let a = #[trigger] list[i];
                let b = #[trigger] list[j];
                let s: int = match a.updated_at {
                    Some(t) => t as int,
                    None => 0,
                };
                let t: int = match b.updated_at {
                    Some(t) => t as int,
                    None => 0,
                };
                &&& s >= t
                &&& s == t ==> a.title == b.title || text_less(a.title, b.title)
                &&& s == t && a.title == b.title ==> text_less(a.session_id, b.session_id)
            }),
{
    let key = |m: RecordModel| record_key(m);
    let name = |m: RecordModel| record_name(m);
    assert forall|i: int| #![trigger list[i]] 0 <= i < list.len() implies list[i] == session_record(
        matches.filter(
            |m: DiskModel| lowercase(m.item.snapshot.id) == lowercase(list[i].session_id),
        ),
    ) by {
        assert(lookup(all_records(matches), name(list[i])) == Some(list[i]));
        matches_are_grouped_by_session(matches, lowercase(list[i].session_id));
    }
    assert forall|i: int, j: int| 0 <= i < j < list.len() implies ({
        let a = #[trigger] list[i];
        let b = #[trigger] list[j];
        let s: int = match a.updated_at {
            Some(t) => t as int,
            None => 0,
        };
        let t: int = match b.updated_at {
            Some(t) => t as int,
            None => 0,
        };
        &&& s >= t
        &&& s == t ==> a.title == b.title || text_less(a.title, b.title)
        &&& s == t && a.title == b.title ==> text_less(a.session_id, b.session_id)
    }) by {
        assert(!ahead(key(list[j]), key(list[i])));
        assert(name(list[i]) != name(list[j]));
        text_order_is_total(list[i].title, list[j].title);
        text_order_is_total(list[i].session_id, list[j].session_id);
    }
}

/// The matches on a session are all those whose identifier is the same in lower case, in their order.
pub proof fn matches_are_grouped_by_session(matches: Seq<DiskModel>, key: Seq<char>)
    ensures
        on_session(matches, key) == matches.filter(
            |m: DiskModel| lowercase(m.item.snapshot.id) == key,
        ),
    decreases matches.len(),
{
    reveal(Seq::filter);
    if matches.len() > 0 {
        matches_are_grouped_by_session(matches.drop_last(), key);
    }
}

/// The file that is shown is that of the first match in the instance that is asked for, where it exists.
/// Otherwise no match whose file exists is passed over for one whose file does not; among those, none
/// in a running instance for one in another; and among those, none that is later. Of several equally
/// good ones the last is shown.
pub proof fn the_best_file_is_shown(
    matches: Seq<DiskModel>,
    asked: Option<Seq<char>>,
    first: int,
    j: int,
)
    requires
        0 <= j < matches.len(),
    ensures
        0 <= first < matches.len() && (asked matches Some(id) && !is_blank(id)
            && matches[first].item.instance.id == trimmed(id) && (forall|i: int|
            0 <= i < first ==> (#[trigger] matches[i]).item.instance.id != trimmed(id)))
            && matches[first].item.snapshot.rollout_path is Some && matches[first].has_file
            ==> shown_match(matches, asked) == matches[first],
        (asked matches Some(id) ==> is_blank(id) || forall|i: int|
            0 <= i < matches.len() ==> (#[trigger] matches[i]).item.instance.id != trimmed(id))
            ==> exists|at: int|
            {
                let a = matches[at];
                let b = matches[j];
                let x = a.item.snapshot.rollout_path is Some && a.has_file;
                let y = b.item.snapshot.rollout_path is Some && b.has_file;
                &&& 0 <= at < matches.len()
                &&& shown_match(matches, asked) == #[trigger] matches[at]
                &&& y ==> x
                &&& x == y && b.item.running ==> a.item.running
                &&& x == y && a.item.running == b.item.running ==> found_time(b) <= found_time(a)
                &&& x == y && a.item.running == b.item.running && found_time(b) == found_time(a)
                    ==> j <= at
            },
{
    lemma_best_match(matches);
    if let Some(id) = asked {
        if !is_blank(id) {
            if 0 <= first < matches.len() && matches[first].item.instance.id == trimmed(id) && (
            forall|i: int|
                0 <= i < first ==> (#[trigger] matches[i]).item.instance.id != trimmed(id)) {
                lemma_first_in_instance(matches, trimmed(id), first);
            }
            if forall|i: int|
                0 <= i < matches.len() ==> (#[trigger] matches[i]).item.instance.id != trimmed(id) {
                lemma_first_in_instance(matches, trimmed(id), matches.len() as int);
            }
        }
    }
    let at = best_match(matches);
    assert(!outranks(matches[j], matches[at]));
    if at < j {
        assert(outranks(matches[at], matches[j]));
    }
    assert(matches[at] == matches[best_match(matches)]);
}

/// Where no file can be shown, it is said that there is none, or which one is missing.
pub proof fn missing_files_are_named(m: DiskModel, path: Seq<char>)
    ensures
        m.item.snapshot.rollout_path is None ==> missing_file_warning(m)
            == "No session file found. Only metadata is available."@,
        m.item.snapshot.rollout_path == Some(path) ==> missing_file_warning(m)
            == "Session file is missing: "@ + path,
{
}

} // verus!
