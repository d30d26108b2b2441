//! Favorites: sessions of which a backup is kept.
use vstd::prelude::*;

use crate::clock::{is_instant, now_rfc3339, rfc3339_written, UtcDateTime};
use crate::decimal::digits;
use crate::instances::{MatchModel, SessionMatch};
use crate::json::{says, Json, JsonModel, JsonObject};
use crate::json_text::{json_from_str, json_pretty, write_pretty};
use crate::naming::{favorite_path, shm_path, wal_path};
use crate::titles::{about, build_done_message, done_message};

verus! {

// ---------------------------------------------------------------------------------------------
// What is backed up
// ---------------------------------------------------------------------------------------------
/// The files that are backed up for a session: the index, the database with the files beside it, and
/// the session file, where there is one.
pub open spec fn backup_sources(
    index_path: Seq<char>,
    sqlite_path: Seq<char>,
    rollout_path: Option<Seq<char>>,
) -> Seq<Seq<char>> {
    let shared = seq![index_path, sqlite_path, sqlite_path + "-wal"@, sqlite_path + "-shm"@];
    match rollout_path {
        Some(path) => shared.push(path),
        None => shared,
    }
}

/// The files that are backed up for a session.
pub fn list_backup_sources(index_path: &str, sqlite_path: &str, rollout_path: Option<&str>) -> (r: Vec<
    String,
>)
    ensures
        r.deep_view() == backup_sources(index_path@, sqlite_path@, rollout_path.deep_view()),
{
    let mut out: Vec<String> = Vec::new();
    out.push(index_path.to_owned());
    out.push(sqlite_path.to_owned());
    out.push(wal_path(sqlite_path));
    out.push(shm_path(sqlite_path));
    if let Some(path) = rollout_path {
        out.push(path.to_owned());
    }
    proof {
        assert(out.deep_view() =~= backup_sources(
            index_path@,
            sqlite_path@,
            rollout_path.deep_view(),
        ));
    }
    out
}

/// A file that is to be backed up: the name that its path ends with, where there is one, and whether
/// it exists.
#[derive(Debug, PartialEq, Eq)]
pub struct BackupSource {
    pub path: String,
    pub file_name: Option<String>,
    pub exists_on_disk: bool,
}

/// What is known of a file that is to be backed up.
#[verifier::ext_equal]
pub struct SourceModel {
    pub path: Seq<char>,
    pub file_name: Option<Seq<char>>,
    pub exists_on_disk: bool,
}

impl DeepView for BackupSource {
    type V = SourceModel;

    open spec fn deep_view(&self) -> SourceModel {
        SourceModel {
            path: self.path@,
            file_name: self.file_name.deep_view(),
            exists_on_disk: self.exists_on_disk,
        }
    }
}

/// The files that are copied, in order, each with the name that its copy gets: those that exist and
/// have a name.
pub open spec fn planned_copies(sources: Seq<SourceModel>) -> Seq<(Seq<char>, Seq<char>)>
    decreases sources.len(),
{
    if sources.len() == 0 {
        Seq::empty()
    } else {
        let before = planned_copies(sources.drop_last());
        match sources.last().file_name {
            Some(name) if sources.last().exists_on_disk => before.push((sources.last().path, name)),
            _ => before,
        }
    }
}

/// The files that are copied, in order, each with the name that its copy gets.
pub fn plan_copies(sources: &Vec<BackupSource>) -> (r: Vec<(String, String)>)
    ensures
        r.deep_view() == planned_copies(sources.deep_view()),
{
    let ghost all = sources.deep_view();
    let mut copies: Vec<(String, String)> = Vec::new();
    let mut i: usize = 0;
    proof {
        assert(copies.deep_view() =~= planned_copies(all.take(0)));
    }
    while i < sources.len()
        invariant
            all == sources.deep_view(),
            i <= sources@.len(),
            copies.deep_view() == planned_copies(all.take(i as int)),
        decreases sources@.len() - i,
    {
        let source = &sources[i];
        let ghost before = copies.deep_view();
        proof {
            assert(all.take(i + 1).drop_last() =~= all.take(i as int));
            assert(all.take(i + 1).last() == source.deep_view());
        }
        if source.exists_on_disk {
            if let Some(name) = &source.file_name {
                copies.push((source.path.clone(), name.clone()));
                proof {
                    assert(copies.deep_view() =~= before.push((source.path@, name@)));
                }
            }
        }
        i += 1;
    }
    proof {
        assert(all.take(i as int) =~= all);
    }
    copies
}

/// Texts as a JSON array.
pub open spec fn text_array(list: Seq<Seq<char>>) -> JsonModel {
    JsonModel::Array(list.map_values(|s: Seq<char>| JsonModel::Text(s)))
}

fn array_of_texts(list: &Vec<String>) -> (r: Json)
    ensures
        r@ == text_array(list.deep_view()),
{
    let mut items: Vec<Json> = Vec::new();
    let mut i: usize = 0;
    while i < list.len()
        invariant
            i <= list@.len(),
            items@.len() == i,
            forall|k: int| 0 <= k < i ==> (#[trigger] items@[k])@ == JsonModel::Text(list@[k]@),
        decreases list@.len() - i,
    {
        items.push(json_from_str(list[i].as_str()));
        i += 1;
    }
    let r = Json::Array(items);
    proof {
        assert(r@->Array_0 =~= list.deep_view().map_values(|s: Seq<char>| JsonModel::Text(s)));
    }
    r
}

/// What is noted down beside a backup: whose it is, where it was found, when it was made and of what
/// files.
pub open spec fn favorite_manifest(
    item: MatchModel,
    source_paths: Seq<Seq<char>>,
    favorited_at: Seq<char>,
) -> JsonModel {
    JsonModel::Object(
        Map::empty().insert("session_id"@, JsonModel::Text(item.snapshot.id)).insert(
            "instance_id"@,
            JsonModel::Text(item.instance.id),
        ).insert("instance_name"@, JsonModel::Text(item.instance.name)).insert(
            "favorited_at"@,
            JsonModel::Text(favorited_at),
        ).insert("cwd"@, JsonModel::Text(item.snapshot.cwd)).insert(
            "model_provider"@,
            JsonModel::Text(item.snapshot.model_provider),
        ).insert("source_paths"@, text_array(source_paths)),
    )
}

/// What is noted down beside a backup that is made at a time.
pub fn favorite_manifest_at(item: &SessionMatch, file_paths: &Vec<String>, favorited_at: &str) -> (r:
    Json)
    ensures
        r@ == favorite_manifest(item.deep_view(), file_paths.deep_view(), favorited_at@),
{
    let mut fields = JsonObject::new();
    fields.set("session_id", json_from_str(item.snapshot.id.as_str()));
    fields.set("instance_id", json_from_str(item.instance.id.as_str()));
    fields.set("instance_name", json_from_str(item.instance.name.as_str()));
    fields.set("favorited_at", json_from_str(favorited_at));
    fields.set("cwd", json_from_str(item.snapshot.cwd.as_str()));
    fields.set("model_provider", json_from_str(item.snapshot.model_provider.as_str()));
    fields.set("source_paths", array_of_texts(file_paths));
    Json::Object(fields)
}

/// What is noted down beside a backup that is made now.
pub fn build_favorite_manifest(item: &SessionMatch, file_paths: &Vec<String>) -> (r: Json)
    ensures
        exists|t: UtcDateTime|
            is_instant(t.seconds as int, t.nanos as int) && 0 <= t.seconds && r@
                == favorite_manifest(
                item.deep_view(),
                file_paths.deep_view(),
                #[trigger] rfc3339_written(t.seconds, t.nanos),
            ),
{
    let now = now_rfc3339();
    favorite_manifest_at(item, file_paths, now.as_str())
}

/// The text of the note beside a backup in a directory.
pub fn manifest_text(target_dir: &str, manifest: &Json) -> (r: Result<String, String>)
    ensures
        r is Ok,
        match (json_pretty(manifest@), r) {
            (Ok(text), Ok(written)) => written@ == text,
            (Err(e), Err(message)) => message@ == "Failed to serialize manifest for "@ + target_dir@
                + ": "@ + e,
            _ => false,
        },
{
    match write_pretty(manifest) {
        Ok(text) => Ok(text),
        Err(e) => {
            let mut message = "Failed to serialize manifest for ".to_owned();
            message.append(target_dir);
            message.append(": ");
            message.append(e.as_str());
            Err(message)
        },
    }
}

// ---------------------------------------------------------------------------------------------
// What comes of it
// ---------------------------------------------------------------------------------------------
/// What came of making or removing a backup.
#[derive(Debug, Clone, PartialEq, Eq)]
pub struct CodexSessionFavoriteResult {
    pub session_id: String,
    pub matched_instance_count: usize,
    pub backup_paths: Vec<String>,
    pub warnings: Vec<String>,
    pub message: String,
}

/// What came of the backup in one instance: whether the session has a file there, and the files that
/// were made, or why they could not be.
#[derive(Debug, PartialEq, Eq)]
pub struct FavoriteCopy {
    pub instance_name: String,
    pub has_rollout: bool,
    pub copied: Result<Vec<String>, String>,
}

/// What came of the backup in one instance.
#[verifier::ext_equal]
pub struct CopyModel {
    pub instance_name: Seq<char>,
    pub has_rollout: bool,
    pub copied: Result<Seq<Seq<char>>, Seq<char>>,
}

impl DeepView for FavoriteCopy {
    type V = CopyModel;

    open spec fn deep_view(&self) -> CopyModel {
        CopyModel {
            instance_name: self.instance_name@,
            has_rollout: self.has_rollout,
            copied: match self.copied {
                Ok(list) => Ok(list.deep_view()),
                Err(e) => Err(e@),
            },
        }
    }
}

/// All files that were made, or the first reason why some could not be.
pub open spec fn all_copied(copies: Seq<CopyModel>) -> Result<Seq<Seq<char>>, Seq<char>>
    decreases copies.len(),
{
    if copies.len() == 0 {
        Ok(Seq::empty())
    } else {
        match (all_copied(copies.drop_last()), copies.last().copied) {
            (Err(e), _) => Err(e),
            (Ok(_), Err(e)) => Err(e),
            (Ok(before), Ok(list)) => Ok(before + list),
        }
    }
}

/// The warnings about instances that have no file of the session.
pub open spec fn copy_warnings(copies: Seq<CopyModel>) -> Seq<Seq<char>>
    decreases copies.len(),
{
    if copies.len() == 0 {
        Seq::empty()
    } else {
        let before = copy_warnings(copies.drop_last());
        if copies.last().has_rollout {
            before
        } else {
            before.push(
                about(
                    copies.last().instance_name,
                    "session file is missing, only index/sqlite snapshot was backed up."@,
                ),
            )
        }
    }
}

fn append_texts(list: &mut Vec<String>, more: &Vec<String>)
    ensures
        final(list).deep_view() == old(list).deep_view() + more.deep_view(),
{
    let ghost start = list.deep_view();
    let mut i: usize = 0;
    proof {
        assert(list.deep_view() =~= start + more.deep_view().take(0));
    }
    while i < more.len()
        invariant
            i <= more@.len(),
            list.deep_view() == start + more.deep_view().take(i as int),
        decreases more@.len() - i,
    {
        let ghost before = list.deep_view();
        list.push(more[i].clone());
        proof {
            assert(list.deep_view() =~= before.push(more@[i as int]@));
            assert(list.deep_view() =~= start + more.deep_view().take(i + 1));
        }
        i += 1;
    }
    proof {
        assert(more.deep_view().take(i as int) =~= more.deep_view());
    }
}

proof fn lemma_copied_error(copies: Seq<CopyModel>, n: int)
    requires
        0 <= n <= copies.len(),
        all_copied(copies.take(n)) is Err,
    ensures
        all_copied(copies) == all_copied(copies.take(n)),
    decreases copies.len(),
{
    if n < copies.len() {
        assert(copies.drop_last().take(n) =~= copies.take(n));
        lemma_copied_error(copies.drop_last(), n);
    } else {
        assert(copies.take(n) =~= copies);
    }
}

/// What came of making a session a favorite. `copies` are what came of the backup in each instance
/// that the session was found in, up to the first that failed, or why the session could not be
/// looked for.
pub fn favorite_session(session_id: String, copies: Result<Vec<FavoriteCopy>, String>) -> (r: Result<
    CodexSessionFavoriteResult,
    String,
>)
    ensures
        match copies {
            Err(e) => r matches Err(message) && message@ == e@,
            Ok(list) => if list@.len() == 0 {
                r matches Err(message) && message@ == "Session not found: "@ + session_id@
            } else {
                let all = list.deep_view();
                match all_copied(all) {
                    Err(e) => r matches Err(message) && message@ == e,
                    Ok(paths) => r matches Ok(done) && {
                        &&& done.session_id@ == session_id@
                        &&& done.matched_instance_count == list@.len()
                        &&& done.backup_paths.deep_view() == paths
                        &&& done.warnings.deep_view() == copy_warnings(all)
                        &&& done.message@ == done_message(
                            "Favorited session"@,
                            list@.len(),
                            copy_warnings(all).len(),
                        )
                    },
                }
            },
        },
{
    let list = match copies {
        Ok(list) => list,
        Err(e) => {
            return Err(e);
        },
    };
    if list.len() == 0 {
        let mut message = "Session not found: ".to_owned();
        message.append(session_id.as_str());
        return Err(message);
    }
    let ghost all = list.deep_view();
    let mut backup_paths: Vec<String> = Vec::new();
    let mut warnings: Vec<String> = Vec::new();
    let mut i: usize = 0;
    proof {
        assert(all.take(0).len() == 0);
        assert(backup_paths.deep_view() =~= Seq::<Seq<char>>::empty());
        assert(warnings.deep_view() =~= copy_warnings(all.take(0)));
    }
    while i < list.len()
        invariant
            all == list.deep_view(),
            i <= list@.len(),
            copies matches Ok(l) && l == list,
            all.len() > 0,
            all_copied(all.take(i as int)) == Ok::<Seq<Seq<char>>, Seq<char>>(
                backup_paths.deep_view(),
            ),
            warnings.deep_view() == copy_warnings(all.take(i as int)),
        decreases list@.len() - i,
    {
        let copy = &list[i];
        let ghost before = warnings.deep_view();
        proof {
            assert(all.take(i + 1).drop_last() =~= all.take(i as int));
            assert(all.take(i + 1).last() == copy.deep_view());
        }
        if !copy.has_rollout {
            let mut warning = copy.instance_name.clone();
            warning.append(": ");
            warning.append("session file is missing, only index/sqlite snapshot was backed up.");
            let ghost m = warning@;
            warnings.push(warning);
            proof {
                assert(warnings.deep_view() =~= before.push(m));
            }
        }
        match &copy.copied {
            Ok(paths) => {
                append_texts(&mut backup_paths, paths);
            },
            Err(e) => {
                proof {
                    lemma_copied_error(all, i + 1);
                }
                return Err(e.clone());
            },
        }
        i += 1;
    }
    proof {
        assert(all.take(i as int) =~= all);
    }
    let message = build_done_message("Favorited session", list.len(), warnings.len());
    Ok(
        CodexSessionFavoriteResult {
            session_id,
            matched_instance_count: list.len(),
            backup_paths,
            warnings,
            message,
        },
    )
}

/// The directory that is to be removed with a backup: the one that the backup lies in, where it
/// exists.
pub open spec fn planned_removal(
    favorite_dir: Result<Seq<Seq<char>>, Seq<char>>,
    exists_on_disk: bool,
) -> Result<Option<Seq<Seq<char>>>, Seq<char>> {
    match favorite_dir {
        Ok(names) => Ok(
            if exists_on_disk {
                Some(names)
            } else {
                None
            },
        ),
        Err(e) => Err(e),
    }
}

/// The directory that is to be removed with a backup, where it exists. `favorite_dir` are the names
/// that lead to it, or why they are not known.
pub fn backup_to_remove(favorite_dir: Result<Vec<String>, String>, exists_on_disk: bool) -> (r: Result<
    Option<Vec<String>>,
    String,
>)
    ensures
        match (favorite_dir, r) {
            (Ok(names), Ok(planned)) => planned_removal(Ok(names.deep_view()), exists_on_disk) == Ok::<
                Option<Seq<Seq<char>>>,
                Seq<char>,
            >(planned.deep_view()),
            (Err(e), Err(message)) => planned_removal(Err(e@), exists_on_disk) == Err::<
                Option<Seq<Seq<char>>>,
                Seq<char>,
            >(message@),
            _ => false,
        },
{
    match favorite_dir {
        Ok(names) => if exists_on_disk {
            Ok(Some(names))
        } else {
            Ok(None)
        },
        Err(e) => Err(e),
    }
}

/// What came of removing the backup in one instance: the directory that was removed, where there was
/// one, or why it could not be.
pub open spec fn removal_model(removal: Result<Option<String>, String>) -> Result<
    Option<Seq<char>>,
    Seq<char>,
> {
    match removal {
        Ok(path) => Ok(path.deep_view()),
        Err(e) => Err(e@),
    }
}

/// What came of removing the backups.
pub open spec fn removals_model(removals: Seq<Result<Option<String>, String>>) -> Seq<
    Result<Option<Seq<char>>, Seq<char>>,
> {
    removals.map_values(|removal: Result<Option<String>, String>| removal_model(removal))
}

/// All directories that were removed, or the first reason why one could not be.
pub open spec fn all_removed(removals: Seq<Result<Option<Seq<char>>, Seq<char>>>) -> Result<
    Seq<Seq<char>>,
    Seq<char>,
>
    decreases removals.len(),
{
    if removals.len() == 0 {
        Ok(Seq::empty())
    } else {
        match (all_removed(removals.drop_last()), removals.last()) {
            (Err(e), _) => Err(e),
            (Ok(_), Err(e)) => Err(e),
            (Ok(before), Ok(None)) => Ok(before),
            (Ok(before), Ok(Some(path))) => Ok(before.push(path)),
        }
    }
}

/// The warnings about removing backups: one, where there was none to remove.
pub open spec fn removal_warnings(removed: Seq<Seq<char>>) -> Seq<Seq<char>> {
    if removed.len() == 0 {
        seq!["No existing favorite backup was found."@]
    } else {
        Seq::empty()
    }
}

proof fn lemma_removed_error(removals: Seq<Result<Option<Seq<char>>, Seq<char>>>, n: int)
    requires
        0 <= n <= removals.len(),
        all_removed(removals.take(n)) is Err,
    ensures
        all_removed(removals) == all_removed(removals.take(n)),
    decreases removals.len(),
{
    if n < removals.len() {
        assert(removals.drop_last().take(n) =~= removals.take(n));
        lemma_removed_error(removals.drop_last(), n);
    } else {
        assert(removals.take(n) =~= removals);
    }
}

/// What came of making a session no favorite any more. `removals` are what came of it in each
/// instance that the session was found in, up to the first that failed, or why the session could not
/// be looked for.
pub fn unfavorite_session(
    session_id: String,
    removals: Result<Vec<Result<Option<String>, String>>, String>,
) -> (r: Result<CodexSessionFavoriteResult, String>)
    ensures
        match removals {
            Err(e) => r matches Err(message) && message@ == e@,
            Ok(list) => if list@.len() == 0 {
                r matches Err(message) && message@ == "Session not found: "@ + session_id@
            } else {
                match all_removed(removals_model(list@)) {
                    Err(e) => r matches Err(message) && message@ == e,
                    Ok(removed) => r matches Ok(done) && {
                        &&& done.session_id@ == session_id@
                        &&& done.matched_instance_count == list@.len()
                        &&& done.backup_paths.deep_view() == removed
                        &&& done.warnings.deep_view() == removal_warnings(removed)
                        &&& done.message@ == done_message(
                            "Removed favorite backup"@,
                            list@.len(),
                            removal_warnings(removed).len(),
                        )
                    },
                }
            },
        },
{
    let list = match removals {
        Ok(list) => list,
        Err(e) => {
            return Err(e);
        },
    };
    if list.len() == 0 {
        let mut message = "Session not found: ".to_owned();
        message.append(session_id.as_str());
        return Err(message);
    }
    let ghost all = removals_model(list@);
    let mut removed: Vec<String> = Vec::new();
    let mut i: usize = 0;
    proof {
        assert(all.take(0).len() == 0);
        assert(removed.deep_view() =~= Seq::<Seq<char>>::empty());
    }
    while i < list.len()
        invariant
            all == removals_model(list@),
            i <= list@.len(),
            removals matches Ok(l) && l == list,
            list@.len() > 0,
            all_removed(all.take(i as int)) == Ok::<Seq<Seq<char>>, Seq<char>>(
                removed.deep_view(),
            ),
        decreases list@.len() - i,
    {
        let ghost before = removed.deep_view();
        proof {
            assert(all.take(i + 1).drop_last() =~= all.take(i as int));
            assert(all.take(i + 1).last() == removal_model(list@[i as int]));
        }
        match &list[i] {
            Ok(Some(path)) => {
                removed.push(path.clone());
                proof {
                    assert(removed.deep_view() =~= before.push(path@));
                }
            },
            Ok(None) => {},
            Err(e) => {
                proof {
                    lemma_removed_error(all, i + 1);
                }
                return Err(e.clone());
            },
        }
        i += 1;
    }
    proof {
        assert(all.take(i as int) =~= all);
    }
    let mut warnings: Vec<String> = Vec::new();
    if removed.len() == 0 {
        warnings.push("No existing favorite backup was found.".to_owned());
    }
    proof {
        assert(warnings.deep_view() =~= removal_warnings(removed.deep_view()));
    }
    let message = build_done_message("Removed favorite backup", list.len(), warnings.len());
    Ok(
        CodexSessionFavoriteResult {
            session_id,
            matched_instance_count: list.len(),
            backup_paths: removed,
            warnings,
            message,
        },
    )
}

// ---------------------------------------------------------------------------------------------
// Laws
// ---------------------------------------------------------------------------------------------
/// A backup covers the session file, whenever there is one, besides the index and the database with
/// the two files beside it.
pub proof fn backups_cover_the_session_file(
    index_path: Seq<char>,
    sqlite_path: Seq<char>,
    rollout_path: Option<Seq<char>>,
)
    ensures
        ({
            let list = backup_sources(index_path, sqlite_path, rollout_path);
            &&& list.contains(index_path)
            &&& list.contains(sqlite_path)
            &&& list.contains(sqlite_path + "-wal"@)
            &&& list.contains(sqlite_path + "-shm"@)
            &&& rollout_path matches Some(path) ==> list.contains(path)
            &&& list.len() == 4 + (if rollout_path is Some {
                1int
            } else {
                0int
            })
        }),
{
    let list = backup_sources(index_path, sqlite_path, rollout_path);
    assert(list[0] == index_path);
    assert(list[1] == sqlite_path);
    assert(list[2] == sqlite_path + "-wal"@);
    assert(list[3] == sqlite_path + "-shm"@);
    if let Some(path) = rollout_path {
        assert(list[4] == path);
    }
}

/// Every file that exists and has a name is copied under that name, and nothing else is copied.
pub proof fn backups_leave_nothing_out(sources: Seq<SourceModel>)
    ensures
        forall|i: int|
            0 <= i < sources.len() && (#[trigger] sources[i]).exists_on_disk
                && sources[i].file_name is Some ==> planned_copies(sources).contains(
                (sources[i].path, sources[i].file_name->0),
            ),
        forall|k: int|
            0 <= k < planned_copies(sources).len() ==> exists|i: int|
                0 <= i < sources.len() && (#[trigger] sources[i]).exists_on_disk
                    && sources[i].file_name == Some((#[trigger] planned_copies(sources)[k]).1)
                    && sources[i].path == planned_copies(sources)[k].0,
    decreases sources.len(),
{
    if sources.len() > 0 {
        let before = sources.drop_last();
        let n = sources.len() - 1;
        let planned = planned_copies(sources);
        let earlier = planned_copies(before);
        backups_leave_nothing_out(before);
        assert forall|i: int|
            0 <= i < sources.len() && (#[trigger] sources[i]).exists_on_disk
                && sources[i].file_name is Some implies planned.contains(
            (sources[i].path, sources[i].file_name->0),
        ) by {
            let copy = (sources[i].path, sources[i].file_name->0);
            if i < n {
                assert(before[i] == sources[i]);
                let k = choose|k: int| 0 <= k < earlier.len() && earlier[k] == copy;
                assert(planned[k] == copy);
            } else {
                assert(planned[earlier.len() as int] == copy);
            }
        }
        assert forall|k: int| 0 <= k < planned.len() implies exists|i: int|
            0 <= i < sources.len() && (#[trigger] sources[i]).exists_on_disk
                && sources[i].file_name == Some((#[trigger] planned[k]).1) && sources[i].path
                == planned[k].0 by {
            if k < earlier.len() {
                assert(planned[k] == earlier[k]);
                let i = choose|i: int|
                    0 <= i < before.len() && (#[trigger] before[i]).exists_on_disk
                        && before[i].file_name == Some(earlier[k].1) && before[i].path
                        == earlier[k].0;
                assert(sources[i] == before[i]);
            } else {
                assert(sources[n].exists_on_disk);
            }
        }
    }
}

/// The directory that the backup of a session that was found in an instance lies in.
pub open spec fn backup_dir(item: MatchModel) -> Seq<Seq<char>> {
    favorite_path(item.instance.id, item.snapshot.id)
}

/// The directories that exist once the backups of some sessions were made. `disk` are those that
/// existed before.
pub open spec fn with_backups(disk: Set<Seq<Seq<char>>>, items: Seq<MatchModel>) -> Set<
    Seq<Seq<char>>,
>
    decreases items.len(),
{
    if items.len() == 0 {
        disk
    } else {
        with_backups(disk, items.drop_last()).insert(backup_dir(items.last()))
    }
}

/// The directories that exist once the backups of some sessions were removed.
pub open spec fn without_backups(disk: Set<Seq<Seq<char>>>, items: Seq<MatchModel>) -> Set<
    Seq<Seq<char>>,
>
    decreases items.len(),
{
    if items.len() == 0 {
        disk
    } else {
        without_backups(disk, items.drop_last()).remove(backup_dir(items.last()))
    }
}

/// What comes of removing the backups of some sessions, one after the other, where nothing else fails.
/// `home` is the home directory, and `shown` says how the names that lead to a directory are shown.
pub open spec fn removals_on(
    disk: Set<Seq<Seq<char>>>,
    items: Seq<MatchModel>,
    home: Seq<char>,
    shown: spec_fn(Seq<Seq<char>>) -> Seq<char>,
) -> Seq<Result<Option<Seq<char>>, Seq<char>>>
    decreases items.len(),
{
    if items.len() == 0 {
        Seq::empty()
    } else {
        let dir = backup_dir(items.last());
        let exists_on_disk = without_backups(disk, items.drop_last()).contains(dir);
        removals_on(disk, items.drop_last(), home, shown).push(
            match planned_removal(Ok(seq![home] + dir), exists_on_disk) {
                Ok(Some(names)) => Ok(Some(shown(names))),
                Ok(None) => Ok(None),
                Err(e) => Err(e),
            },
        )
    }
}

/// Once backups were made, the directory of each of them exists.
pub proof fn backups_that_were_made_exist(disk: Set<Seq<Seq<char>>>, items: Seq<MatchModel>)
    ensures
        forall|i: int|
            0 <= i < items.len() ==> with_backups(disk, items).contains(
                backup_dir(#[trigger] items[i]),
            ),
    decreases items.len(),
{
    if items.len() > 0 {
        let before = items.drop_last();
        backups_that_were_made_exist(disk, before);
        assert forall|i: int| 0 <= i < items.len() implies with_backups(disk, items).contains(
            backup_dir(#[trigger] items[i]),
        ) by {
            if i < before.len() {
                assert(with_backups(disk, before).contains(backup_dir(before[i])));
            }
        }
    }
}

/// Once backups were removed, the directory of none of them exists, and every other directory is as
/// it was.
pub proof fn backups_that_were_removed_are_gone(disk: Set<Seq<Seq<char>>>, items: Seq<MatchModel>)
    ensures
        forall|i: int|
            0 <= i < items.len() ==> !without_backups(disk, items).contains(
                backup_dir(#[trigger] items[i]),
            ),
        forall|dir: Seq<Seq<char>>|
            (forall|i: int| 0 <= i < items.len() ==> backup_dir(#[trigger] items[i]) != dir) ==> (
            #[trigger] without_backups(disk, items).contains(dir) <==> disk.contains(dir)),
    decreases items.len(),
{
    if items.len() > 0 {
        let before = items.drop_last();
        let n = items.len() - 1;
        backups_that_were_removed_are_gone(disk, before);
        assert forall|i: int| 0 <= i < items.len() implies !without_backups(disk, items).contains(
            backup_dir(#[trigger] items[i]),
        ) by {
            if i < n {
                assert(!without_backups(disk, before).contains(backup_dir(before[i])));
            }
        }
        assert forall|dir: Seq<Seq<char>>|
            (forall|i: int| 0 <= i < items.len() ==> backup_dir(#[trigger] items[i]) != dir) implies (
        #[trigger] without_backups(disk, items).contains(dir) <==> disk.contains(dir)) by {
            assert(backup_dir(items[n]) != dir);
            assert forall|i: int| 0 <= i < before.len() implies backup_dir(#[trigger] before[i])
                != dir by {
                assert(backup_dir(items[i]) != dir);
            }
            assert(without_backups(disk, before).contains(dir) <==> disk.contains(dir));
        }
    }
}

proof fn lemma_nothing_to_remove(
    disk: Set<Seq<Seq<char>>>,
    items: Seq<MatchModel>,
    home: Seq<char>,
    shown: spec_fn(Seq<Seq<char>>) -> Seq<char>,
)
    requires
        forall|i: int| 0 <= i < items.len() ==> !disk.contains(backup_dir(#[trigger] items[i])),
    ensures
        removals_on(disk, items, home, shown).len() == items.len(),
        all_removed(removals_on(disk, items, home, shown)) == Ok::<Seq<Seq<char>>, Seq<char>>(
            Seq::empty(),
        ),
        without_backups(disk, items) == disk,
    decreases items.len(),
{
    if items.len() > 0 {
        let before = items.drop_last();
        assert forall|i: int| 0 <= i < before.len() implies !disk.contains(
            backup_dir(#[trigger] before[i]),
        ) by {
            assert(!disk.contains(backup_dir(items[i])));
        }
        lemma_nothing_to_remove(disk, before, home, shown);
        assert(!disk.contains(backup_dir(items[items.len() - 1])));
        assert(removals_on(disk, items, home, shown).drop_last() =~= removals_on(
            disk,
            before,
            home,
            shown,
        ));
        assert(without_backups(disk, items) =~= disk);
    }
}

/// Favorites that were removed can be removed again: nothing is left to remove, which is no error but
/// the one warning.
pub proof fn favorites_are_removed_once(
    disk: Set<Seq<Seq<char>>>,
    items: Seq<MatchModel>,
    home: Seq<char>,
    shown: spec_fn(Seq<Seq<char>>) -> Seq<char>,
)
    ensures
        ({
            let after = without_backups(disk, items);
            let removals = removals_on(after, items, home, shown);
            let warnings = removal_warnings(Seq::empty());
            &&& removals.len() == items.len()
            &&& all_removed(removals) == Ok::<Seq<Seq<char>>, Seq<char>>(Seq::empty())
            &&& warnings == seq!["No existing favorite backup was found."@]
            &&& done_message("Removed favorite backup"@, items.len(), warnings.len())
                == "Removed favorite backup"@ + " in "@ + digits(items.len())
                + " instance(s), with "@ + "1"@ + " warning(s)."@
            &&& without_backups(after, items) == after
        }),
{
    backups_that_were_removed_are_gone(disk, items);
    lemma_nothing_to_remove(without_backups(disk, items), items, home, shown);
    reveal_strlit("1");
    reveal_with_fuel(digits, 2);
    assert(digits(1) =~= "1"@);
}

/// The files that are copied are those that exist and have a name, in their order, each under its name.
pub proof fn copies_keep_their_order(sources: Seq<SourceModel>)
    ensures
        planned_copies(sources) == sources.filter(
            |s: SourceModel| s.exists_on_disk && s.file_name is Some,
        ).map_values(|s: SourceModel| (s.path, s.file_name->0)),
    decreases sources.len(),
{
    reveal(Seq::filter);
    let keep = |s: SourceModel| s.exists_on_disk && s.file_name is Some;
    let copy = |s: SourceModel| (s.path, s.file_name->0);
    if sources.len() > 0 {
        let before = sources.drop_last();
        copies_keep_their_order(before);
        if keep(sources.last()) {
            assert(sources.filter(keep).map_values(copy) =~= before.filter(keep).map_values(
                copy,
            ).push(copy(sources.last())));
        } else {
            assert(sources.filter(keep) =~= before.filter(keep));
        }
    } else {
        assert(sources.filter(keep).map_values(copy) =~= planned_copies(sources));
    }
}

/// The note beside a backup says whose it is, where it was found, when it was made and of what files.
pub proof fn manifests_say_what_was_backed_up(
    item: MatchModel,
    source_paths: Seq<Seq<char>>,
    favorited_at: Seq<char>,
)
    ensures
        favorite_manifest(item, source_paths, favorited_at) matches JsonModel::Object(fields) && {
            &&& says(fields, "session_id"@, item.snapshot.id)
            &&& says(fields, "instance_id"@, item.instance.id)
            &&& says(fields, "instance_name"@, item.instance.name)
            &&& says(fields, "favorited_at"@, favorited_at)
            &&& says(fields, "cwd"@, item.snapshot.cwd)
            &&& says(fields, "model_provider"@, item.snapshot.model_provider)
            &&& fields.contains_key("source_paths"@)
            &&& fields["source_paths"@] matches JsonModel::Array(list) && list.len()
                == source_paths.len() && forall|i: int|
                0 <= i < list.len() ==> #[trigger] list[i] == JsonModel::Text(source_paths[i])
        },
{
    reveal_strlit("session_id");
    reveal_strlit("instance_id");
    reveal_strlit("instance_name");
    reveal_strlit("favorited_at");
    reveal_strlit("cwd");
    reveal_strlit("model_provider");
    reveal_strlit("source_paths");
    assert("session_id"@.len() == 10 && "instance_id"@.len() == 11 && "instance_name"@.len() == 13);
    assert("favorited_at"@.len() == 12 && "source_paths"@.len() == 12 && "cwd"@.len() == 3);
    assert("favorited_at"@[0] == 'f' && "source_paths"@[0] == 's' && "model_provider"@.len() == 14);
}

/// What came of the backup in one more instance adds to what came of it before: its files behind the
/// others, or its error, unless there was one before; and a warning where the session has no file there.
pub proof fn backups_add_up(copies: Seq<CopyModel>, c: CopyModel)
    ensures
        all_copied(Seq::<CopyModel>::empty()) == Ok::<Seq<Seq<char>>, Seq<char>>(
            Seq::<Seq<char>>::empty(),
        ),
        copy_warnings(Seq::<CopyModel>::empty()).len() == 0,
        all_copied(copies) matches Err(e) ==> all_copied(copies.push(c)) == Err::<
            Seq<Seq<char>>,
            Seq<char>,
        >(e),
        all_copied(copies) matches Ok(before) ==> {
            &&& c.copied matches Ok(list) ==> all_copied(copies.push(c)) == Ok::<
                Seq<Seq<char>>,
                Seq<char>,
            >(before + list)
            &&& c.copied matches Err(e) ==> all_copied(copies.push(c)) == Err::<
                Seq<Seq<char>>,
                Seq<char>,
            >(e)
        },
        c.has_rollout ==> copy_warnings(copies.push(c)) == copy_warnings(copies),
        !c.has_rollout ==> copy_warnings(copies.push(c)) == copy_warnings(copies).push(
            c.instance_name
                + ": session file is missing, only index/sqlite snapshot was backed up."@,
        ),
{
    assert(copies.push(c).drop_last() =~= copies);
    reveal_strlit(": ");
    reveal_strlit(": session file is missing, only index/sqlite snapshot was backed up.");
    reveal_strlit("session file is missing, only index/sqlite snapshot was backed up.");
    assert(about(
        c.instance_name,
        "session file is missing, only index/sqlite snapshot was backed up."@,
    ) =~= c.instance_name
        + ": session file is missing, only index/sqlite snapshot was backed up."@);
}

/// What came of removing one more backup adds to what came of it before: the directory that was removed,
/// where there was one, or the error, unless there was one before. It is a warning where there was none
/// to remove at all, and a directory is removed exactly where it exists.
pub proof fn removals_add_up(
    removals: Seq<Result<Option<Seq<char>>, Seq<char>>>,
    path: Seq<char>,
    e: Seq<char>,
    names: Seq<Seq<char>>,
)
    ensures
        all_removed(Seq::<Result<Option<Seq<char>>, Seq<char>>>::empty()) == Ok::<
            Seq<Seq<char>>,
            Seq<char>,
        >(Seq::<Seq<char>>::empty()),
        all_removed(removals) matches Err(why) ==> all_removed(removals.push(Ok(Some(path))))
            == Err::<Seq<Seq<char>>, Seq<char>>(why) && all_removed(removals.push(Err(e))) == Err::<
            Seq<Seq<char>>,
            Seq<char>,
        >(why),
        all_removed(removals) matches Ok(before) ==> {
            &&& all_removed(removals.push(Ok(Some(path)))) == Ok::<Seq<Seq<char>>, Seq<char>>(
                before.push(path),
            )
            &&& all_removed(removals.push(Ok(None))) == Ok::<Seq<Seq<char>>, Seq<char>>(before)
            &&& all_removed(removals.push(Err(e))) == Err::<Seq<Seq<char>>, Seq<char>>(e)
        },
        names.len() > 0 ==> removal_warnings(names).len() == 0,
        planned_removal(Ok(names), true) == Ok::<Option<Seq<Seq<char>>>, Seq<char>>(Some(names)),
        planned_removal(Ok(names), false) == Ok::<Option<Seq<Seq<char>>>, Seq<char>>(None),
        planned_removal(Err(e), true) == Err::<Option<Seq<Seq<char>>>, Seq<char>>(e),
        planned_removal(Err(e), false) == Err::<Option<Seq<Seq<char>>>, Seq<char>>(e),
{
    assert(removals.push(Ok(Some(path))).drop_last() =~= removals);
    assert(removals.push(Ok(None)).drop_last() =~= removals);
    assert(removals.push(Err(e)).drop_last() =~= removals);
}

} // verus!
