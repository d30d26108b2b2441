//! The instances whose sessions are shown, and the sessions that are found in them.
use vstd::prelude::*;

use crate::search::{lowercase, to_lowercase};
use crate::snapshots::{
    instance_sessions, load_instance_sessions, InstanceSources, SessionSnapshot, SnapshotModel,
    SourcesModel,
};
use crate::text::{blank, is_blank, is_space, lemma_trimmed_fixed, same_text, trim, trimmed};

verus! {

// ---------------------------------------------------------------------------------------------
// Instances
// ---------------------------------------------------------------------------------------------
/// An instance: where it keeps its data, and the process that it last ran as.
#[derive(Debug, PartialEq, Eq)]
pub struct CodexSyncInstance {
    pub id: String,
    pub name: String,
    pub data_dir: String,
    pub last_pid: Option<u32>,
}

/// What an instance is.
#[verifier::ext_equal]
pub struct InstanceModel {
    pub id: Seq<char>,
    pub name: Seq<char>,
    pub data_dir: Seq<char>,
    pub last_pid: Option<u32>,
}

impl DeepView for CodexSyncInstance {
    type V = InstanceModel;

    open spec fn deep_view(&self) -> InstanceModel {
        InstanceModel {
            id: self.id@,
            name: self.name@,
            data_dir: self.data_dir@,
            last_pid: self.last_pid,
        }
    }
}

impl Clone for CodexSyncInstance {
    fn clone(&self) -> (r: CodexSyncInstance)
        ensures
            r.deep_view() == self.deep_view(),
    {
        CodexSyncInstance {
            id: self.id.clone(),
            name: self.name.clone(),
            data_dir: self.data_dir.clone(),
            last_pid: self.last_pid,
        }
    }
}

/// An instance as it is stored.
#[derive(Debug, PartialEq, Eq)]
pub struct StoredInstance {
    pub id: String,
    pub name: String,
    pub user_data_dir: String,
    pub last_pid: Option<u32>,
}

/// What is stored of an instance.
#[verifier::ext_equal]
pub struct StoredModel {
    pub id: Seq<char>,
    pub name: Seq<char>,
    pub user_data_dir: Seq<char>,
    pub last_pid: Option<u32>,
}

impl DeepView for StoredInstance {
    type V = StoredModel;

    open spec fn deep_view(&self) -> StoredModel {
        StoredModel {
            id: self.id@,
            name: self.name@,
            user_data_dir: self.user_data_dir@,
            last_pid: self.last_pid,
        }
    }
}

/// The instances as they are stored, with the process that the default instance last ran as.
#[derive(Debug, PartialEq, Eq)]
pub struct InstanceStore {
    pub default_last_pid: Option<u32>,
    pub instances: Vec<StoredInstance>,
}

/// The identifier of the default instance.
pub open spec fn default_instance_id() -> Seq<char> {
    "__default__"@
}

/// The default instance.
pub open spec fn default_instance(data_dir: Seq<char>, last_pid: Option<u32>) -> InstanceModel {
    InstanceModel { id: default_instance_id(), name: "Default"@, data_dir, last_pid }
}

/// A stored instance, with a name where it has none.
pub open spec fn named_instance(stored: StoredModel) -> InstanceModel {
    InstanceModel {
        id: stored.id,
        name: if is_blank(stored.name) {
            "Instance"@
        } else {
            stored.name
        },
        data_dir: trimmed(stored.user_data_dir),
        last_pid: stored.last_pid,
    }
}

/// The stored instances that have a directory.
pub open spec fn placed_instances(stored: Seq<StoredModel>) -> Seq<InstanceModel>
    decreases stored.len(),
{
    if stored.len() == 0 {
        Seq::empty()
    } else {
        let before = placed_instances(stored.drop_last());
        if is_blank(stored.last().user_data_dir) {
            before
        } else {
            before.push(named_instance(stored.last()))
        }
    }
}

/// All instances: the default instance, and then the stored ones that have a directory. Either of
/// the two may be missing with the reason why it could not be had; the first reason counts.
pub fn collect_instances(
    default_dir: Result<String, String>,
    store: Result<InstanceStore, String>,
) -> (r: Result<Vec<CodexSyncInstance>, String>)
    ensures
        match (default_dir, store, r) {
            (Err(e), _, Err(message)) => message@ == e@,
            (Ok(_), Err(e), Err(message)) => message@ == e@,
            (Ok(dir), Ok(s), Ok(list)) => list.deep_view() == seq![
                default_instance(dir@, s.default_last_pid),
            ] + placed_instances(s.instances.deep_view()),
            _ => false,
        },
{
    let data_dir = match default_dir {
        Ok(dir) => dir,
        Err(e) => {
            return Err(e);
        },
    };
    let store = match store {
        Ok(store) => store,
        Err(e) => {
            return Err(e);
        },
    };
    let ghost head = seq![default_instance(data_dir@, store.default_last_pid)];
    let ghost all = store.instances.deep_view();
    let mut instances: Vec<CodexSyncInstance> = Vec::new();
    instances.push(
        CodexSyncInstance {
            id: "__default__".to_owned(),
            name: "Default".to_owned(),
            data_dir,
            last_pid: store.default_last_pid,
        },
    );
    proof {
        assert(instances.deep_view() =~= head + placed_instances(all.take(0)));
    }
    for stored in it: store.instances
        invariant
            it.seq() == store.instances@,
            all == store.instances.deep_view(),
            instances.deep_view() == head + placed_instances(all.take(it.index() as int)),
    {
        let ghost before = instances.deep_view();
        proof {
            let n = it.index() as int;
            assert(all.take(n + 1).drop_last() =~= all.take(n));
            assert(all.take(n + 1).last() == stored.deep_view());
        }
        let dir = trim(stored.user_data_dir.as_str());
        if !dir.is_empty() {
            let instance = CodexSyncInstance {
                data_dir: dir.to_owned(),
                name: if blank(stored.name.as_str()) {
                    "Instance".to_owned()
                } else {
                    stored.name
                },
                id: stored.id,
                last_pid: stored.last_pid,
            };
            let ghost m = instance.deep_view();
            instances.push(instance);
            proof {
                assert(instances.deep_view() =~= before.push(m));
                assert(instances.deep_view() =~= head + placed_instances(
                    all.take(it.index() + 1),
                ));
            }
        }
    }
    proof {
        assert(all.take(all.len() as int) =~= all);
    }
    Ok(instances)
}

/// The directory that the process of an instance is known by; the default instance has none.
pub fn process_home(instance: &CodexSyncInstance) -> (r: Option<&str>)
    ensures
        match r {
            Some(dir) => instance.id@ != default_instance_id() && dir@ == instance.data_dir@,
            None => instance.id@ == default_instance_id(),
        },
{
    if same_text(instance.id.as_str(), "__default__") {
        None
    } else {
        Some(instance.data_dir.as_str())
    }
}

/// Whether an instance is running: a process was found for it.
pub fn is_instance_running(resolved_pid: Option<u32>) -> (r: bool)
    ensures
        r == (resolved_pid is Some),
{
    resolved_pid.is_some()
}

// ---------------------------------------------------------------------------------------------
// Matches
// ---------------------------------------------------------------------------------------------
/// A session that was found in an instance.
#[derive(Debug, PartialEq)]
pub struct SessionMatch {
    pub instance: CodexSyncInstance,
    pub running: bool,
    pub snapshot: SessionSnapshot,
}

/// What was found in an instance.
#[verifier::ext_equal]
pub struct MatchModel {
    pub instance: InstanceModel,
    pub running: bool,
    pub snapshot: SnapshotModel,
}

impl DeepView for SessionMatch {
    type V = MatchModel;

    open spec fn deep_view(&self) -> MatchModel {
        MatchModel {
            instance: self.instance.deep_view(),
            running: self.running,
            snapshot: self.snapshot.deep_view(),
        }
    }
}

/// An instance with what it keeps on disk, or why that could not be read.
#[derive(Debug, PartialEq)]
pub struct InstanceState {
    pub instance: CodexSyncInstance,
    pub running: bool,
    pub sources: Result<InstanceSources, String>,
}

/// What was read of an instance.
#[verifier::ext_equal]
pub struct StateModel {
    pub instance: InstanceModel,
    pub running: bool,
    pub sources: Result<SourcesModel, Seq<char>>,
}

impl DeepView for InstanceState {
    type V = StateModel;

    open spec fn deep_view(&self) -> StateModel {
        StateModel {
            instance: self.instance.deep_view(),
            running: self.running,
            sources: match self.sources {
                Ok(sources) => Ok(sources.deep_view()),
                Err(e) => Err(e@),
            },
        }
    }
}

/// Whether a session is the one looked for, whatever the case of the identifiers; where none is
/// looked for, every session is.
pub open spec fn is_wanted(snapshot: SnapshotModel, session_id: Option<Seq<char>>) -> bool {
    match session_id {
        Some(id) => lowercase(snapshot.id) == lowercase(id),
        None => true,
    }
}

/// The sessions of an instance that are looked for, in order.
pub open spec fn wanted_matches(
    list: Seq<SnapshotModel>,
    instance: InstanceModel,
    running: bool,
    session_id: Option<Seq<char>>,
) -> Seq<MatchModel>
    decreases list.len(),
{
    if list.len() == 0 {
        Seq::empty()
    } else {
        let before = wanted_matches(list.drop_last(), instance, running, session_id);
        if is_wanted(list.last(), session_id) {
            before.push(MatchModel { instance, running, snapshot: list.last() })
        } else {
            before
        }
    }
}

/// The sessions of an instance, or why they could not be read.
pub open spec fn state_sessions(state: StateModel) -> Result<Seq<SnapshotModel>, Seq<char>> {
    match state.sources {
        Ok(sources) => instance_sessions(sources),
        Err(e) => Err(e),
    }
}

/// The sessions that are looked for in all instances, in the order of the instances. The first
/// instance that could not be read is an error.
pub open spec fn session_matches(states: Seq<StateModel>, session_id: Option<Seq<char>>) -> Result<
    Seq<MatchModel>,
    Seq<char>,
>
    decreases states.len(),
{
    if states.len() == 0 {
        Ok(Seq::empty())
    } else {
        let state = states.last();
        match session_matches(states.drop_last(), session_id) {
            Err(e) => Err(e),
            Ok(before) => match state_sessions(state) {
                Ok(list) => Ok(
                    before + wanted_matches(list, state.instance, state.running, session_id),
                ),
                Err(e) => Err(e),
            },
        }
    }
}

proof fn lemma_matches_error(states: Seq<StateModel>, n: int, session_id: Option<Seq<char>>)
    requires
        0 <= n <= states.len(),
        session_matches(states.take(n), session_id) is Err,
    ensures
        session_matches(states, session_id) == session_matches(states.take(n), session_id),
    decreases states.len(),
{
    if n < states.len() {
        assert(states.drop_last().take(n) =~= states.take(n));
        lemma_matches_error(states.drop_last(), n, session_id);
    } else {
        assert(states.take(n) =~= states);
    }
}

fn add_matches(
    matches: &mut Vec<SessionMatch>,
    list: Vec<SessionSnapshot>,
    instance: &CodexSyncInstance,
    running: bool,
    session_id: Option<&str>,
)
    ensures
        final(matches).deep_view() == old(matches).deep_view() + wanted_matches(
            list.deep_view(),
            instance.deep_view(),
            running,
            session_id.deep_view(),
        ),
{
    let target: Option<String> = match session_id {
        Some(id) => Some(to_lowercase(id)),
        None => None,
    };
    let ghost start = matches.deep_view();
    let ghost all = list.deep_view();
    proof {
        assert(matches.deep_view() =~= start + wanted_matches(
            all.take(0),
            instance.deep_view(),
            running,
            session_id.deep_view(),
        ));
    }
    for snapshot in it: list
        invariant
            it.seq() == list@,
            all == list.deep_view(),
            match target {
                Some(t) => session_id matches Some(id) && t@ == lowercase(id@),
                None => session_id is None,
            },
            matches.deep_view() == start + wanted_matches(
                all.take(it.index() as int),
                instance.deep_view(),
                running,
                session_id.deep_view(),
            ),
    {
        let ghost before = matches.deep_view();
        proof {
            let n = it.index() as int;
            assert(all.take(n + 1).drop_last() =~= all.take(n));
            assert(all.take(n + 1).last() == snapshot.deep_view());
        }
        let wanted = match &target {
            Some(t) => same_text(to_lowercase(snapshot.id.as_str()).as_str(), t.as_str()),
            None => true,
        };
        if wanted {
            let item = SessionMatch { instance: instance.clone(), running, snapshot };
            let ghost m = item.deep_view();
            matches.push(item);
            proof {
                assert(matches.deep_view() =~= before.push(m));
                assert(matches.deep_view() =~= start + wanted_matches(
                    all.take(it.index() + 1),
                    instance.deep_view(),
                    running,
                    session_id.deep_view(),
                ));
            }
        }
    }
    proof {
        assert(all.take(all.len() as int) =~= all);
    }
}

/// The sessions that are looked for in all instances, in the order of the instances. Where no
/// session is named, all of them are.
pub fn collect_session_matches(states: Vec<InstanceState>, session_id: Option<&str>) -> (r: Result<
    Vec<SessionMatch>,
    String,
>)
    ensures
        match (session_matches(states.deep_view(), session_id.deep_view()), r) {
            (Ok(list), Ok(matches)) => matches.deep_view() == list,
            (Err(e), Err(message)) => message@ == e,
            _ => false,
        },
{
    let ghost all = states.deep_view();
    let mut matches: Vec<SessionMatch> = Vec::new();
    proof {
        assert(all.take(0).len() == 0);
        assert(matches.deep_view() =~= Seq::<MatchModel>::empty());
    }
    for state in it: states
        invariant
            it.seq() == states@,
            all == states.deep_view(),
            session_matches(all.take(it.index() as int), session_id.deep_view()) == Ok::<
                Seq<MatchModel>,
                Seq<char>,
            >(matches.deep_view()),
    {
        let ghost n = it.index() as int;
        proof {
            assert(all.take(n + 1).drop_last() =~= all.take(n));
            assert(all.take(n + 1).last() == state.deep_view());
        }
        let sources = match state.sources {
            Ok(sources) => sources,
            Err(e) => {
                proof {
                    lemma_matches_error(all, n + 1, session_id.deep_view());
                }
                return Err(e);
            },
        };
        let list = match load_instance_sessions(sources) {
            Ok(list) => list,
            Err(e) => {
                proof {
                    lemma_matches_error(all, n + 1, session_id.deep_view());
                }
                return Err(e);
            },
        };
        add_matches(&mut matches, list, &state.instance, state.running, session_id);
    }
    proof {
        assert(all.take(all.len() as int) =~= all);
    }
    Ok(matches)
}

// ---------------------------------------------------------------------------------------------
// Laws
// ---------------------------------------------------------------------------------------------
/// The positions of the stored instances that have a directory.
pub open spec fn placed_positions(stored: Seq<StoredModel>) -> Seq<int>
    decreases stored.len(),
{
    if stored.len() == 0 {
        Seq::empty()
    } else {
        let before = placed_positions(stored.drop_last());
        if is_blank(stored.last().user_data_dir) {
            before
        } else {
            before.push(stored.len() - 1)
        }
    }
}

/// Of the stored instances exactly those with a directory are taken, in their order, and each of them
/// has a name and a directory.
pub proof fn instances_are_placed_and_named(stored: Seq<StoredModel>)
    ensures
        placed_instances(stored).len() == placed_positions(stored).len(),
        forall|i: int|
            0 <= i < placed_positions(stored).len() ==> {
                &&& 0 <= #[trigger] placed_positions(stored)[i] < stored.len()
                &&& placed_instances(stored)[i] == named_instance(
                    stored[placed_positions(stored)[i]],
                )
            },
        forall|i: int, j: int|
            0 <= i < j < placed_positions(stored).len() ==> #[trigger] placed_positions(stored)[i]
                < #[trigger] placed_positions(stored)[j],
        forall|n: int|
            0 <= n < stored.len() ==> (placed_positions(stored).contains(n) <==> !is_blank(
                (#[trigger] stored[n]).user_data_dir,
            )),
        forall|i: int|
            0 <= i < placed_instances(stored).len() ==> !is_blank(
                (#[trigger] placed_instances(stored)[i]).name,
            ) && placed_instances(stored)[i].data_dir.len() > 0,
    decreases stored.len(),
{
    reveal_strlit("Instance");
    assert(!is_space('I') && !is_space('e'));
    lemma_trimmed_fixed("Instance"@);
    if stored.len() > 0 {
        let before = stored.drop_last();
        let n = stored.len() - 1;
        let at = placed_positions(stored);
        let earlier = placed_positions(before);
        instances_are_placed_and_named(before);
        assert forall|i: int| 0 <= i < at.len() implies {
            &&& 0 <= #[trigger] at[i] < stored.len()
            &&& placed_instances(stored)[i] == named_instance(stored[at[i]])
        } by {
            if i < earlier.len() {
                assert(at[i] == earlier[i]);
                assert(placed_instances(stored)[i] == placed_instances(before)[i]);
            }
        }
        assert forall|i: int, j: int| 0 <= i < j < at.len() implies #[trigger] at[i]
            < #[trigger] at[j] by {
            assert(at[i] == earlier[i]);
            if j < earlier.len() {
                assert(at[j] == earlier[j]);
            }
        }
        assert forall|k: int| 0 <= k < stored.len() implies (at.contains(k) <==> !is_blank(
            (#[trigger] stored[k]).user_data_dir,
        )) by {
            if k < n {
                assert(before[k] == stored[k]);
                if earlier.contains(k) {
                    let i = choose|i: int| 0 <= i < earlier.len() && earlier[i] == k;
                    assert(at[i] == k);
                }
                if at.contains(k) {
                    let i = choose|i: int| 0 <= i < at.len() && at[i] == k;
                    assert(earlier[i] == k);
                }
            } else {
                if at.contains(k) {
                    let i = choose|i: int| 0 <= i < at.len() && at[i] == k;
                    if i < earlier.len() {
                        assert(earlier[i] < before.len());
                    }
                }
                if !is_blank(stored[k].user_data_dir) {
                    assert(at[at.len() - 1] == k);
                }
            }
        }
    }
}

proof fn lemma_wanted(
    list: Seq<SnapshotModel>,
    instance: InstanceModel,
    running: bool,
    session_id: Option<Seq<char>>,
)
    ensures
        forall|i: int|
            0 <= i < wanted_matches(list, instance, running, session_id).len() ==> is_wanted(
                (#[trigger] wanted_matches(list, instance, running, session_id)[i]).snapshot,
                session_id,
            ),
        session_id is None ==> wanted_matches(list, instance, running, session_id).len()
            == list.len(),
    decreases list.len(),
{
    if list.len() > 0 {
        lemma_wanted(list.drop_last(), instance, running, session_id);
    }
}

/// Only the session that is looked for is found, under whatever spelling of its identifier it is
/// looked for.
pub proof fn only_the_wanted_session_is_found(states: Seq<StateModel>, session_id: Seq<char>)
    requires
        session_matches(states, Some(session_id)) is Ok,
    ensures
        forall|i: int|
            0 <= i < session_matches(states, Some(session_id))->Ok_0.len() ==> lowercase(
                (#[trigger] session_matches(states, Some(session_id))->Ok_0[i]).snapshot.id,
            ) == lowercase(session_id),
        forall|other: Seq<char>|
            lowercase(other) == lowercase(session_id) ==> #[trigger] session_matches(
                states,
                Some(other),
            ) == session_matches(states, Some(session_id)),
    decreases states.len(),
{
    let found = session_matches(states, Some(session_id))->Ok_0;
    if states.len() > 0 {
        let before = states.drop_last();
        let state = states.last();
        only_the_wanted_session_is_found(before, session_id);
        let list = state_sessions(state)->Ok_0;
        lemma_wanted(list, state.instance, state.running, Some(session_id));
        let earlier = session_matches(before, Some(session_id))->Ok_0;
        assert forall|i: int| 0 <= i < found.len() implies lowercase(
            (#[trigger] found[i]).snapshot.id,
        ) == lowercase(session_id) by {
            if i < earlier.len() {
                assert(found[i] == earlier[i]);
            } else {
                assert(found[i] == wanted_matches(
                    list,
                    state.instance,
                    state.running,
                    Some(session_id),
                )[i - earlier.len()]);
            }
        }
        assert forall|other: Seq<char>|
            lowercase(other) == lowercase(session_id) implies #[trigger] session_matches(
            states,
            Some(other),
        ) == session_matches(states, Some(session_id)) by {
            assert(session_matches(before, Some(other)) == session_matches(
                before,
                Some(session_id),
            ));
            lemma_wanted_spelling(list, state.instance, state.running, session_id, other);
        }
    }
}

proof fn lemma_wanted_spelling(
    list: Seq<SnapshotModel>,
    instance: InstanceModel,
    running: bool,
    session_id: Seq<char>,
    other: Seq<char>,
)
    requires
        lowercase(other) == lowercase(session_id),
    ensures
        wanted_matches(list, instance, running, Some(other)) == wanted_matches(
            list,
            instance,
            running,
            Some(session_id),
        ),
    decreases list.len(),
{
    if list.len() > 0 {
        lemma_wanted_spelling(list.drop_last(), instance, running, session_id, other);
    }
}

/// The default instance comes under its own identifier and name, with the directory and the process that
/// are given for it.
pub proof fn the_default_instance_is_known(data_dir: Seq<char>, last_pid: Option<u32>)
    ensures
        default_instance(data_dir, last_pid).id == "__default__"@,
        default_instance(data_dir, last_pid).name == "Default"@,
        default_instance(data_dir, last_pid).data_dir == data_dir,
        default_instance(data_dir, last_pid).last_pid == last_pid,
{
}

/// Whether an instance is a stored one: it has its identifier, its process and its directory, without
/// white space at its ends, and its name, or a general one.
pub open spec fn is_stored_instance(instance: InstanceModel, stored: StoredModel) -> bool {
    &&& instance.id == stored.id
    &&& instance.last_pid == stored.last_pid
    &&& instance.data_dir == trimmed(stored.user_data_dir)
    &&& !is_blank(stored.name) ==> instance.name == stored.name
    &&& is_blank(stored.name) ==> instance.name == "Instance"@
}

/// The stored instances that have a directory are taken over as they are stored, in their order, and the
/// others are left out.
pub proof fn stored_instances_are_taken_over(stored: Seq<StoredModel>)
    ensures
        ({
            let kept = stored.filter(|s: StoredModel| !is_blank(s.user_data_dir));
            &&& placed_instances(stored).len() == kept.len()
            &&& forall|i: int|
                0 <= i < kept.len() ==> is_stored_instance(
                    #[trigger] placed_instances(stored)[i],
                    kept[i],
                )
        }),
    decreases stored.len(),
{
    reveal(Seq::filter);
    if stored.len() > 0 {
        let before = stored.drop_last();
        stored_instances_are_taken_over(before);
        let kept = stored.filter(|s: StoredModel| !is_blank(s.user_data_dir));
        let earlier = before.filter(|s: StoredModel| !is_blank(s.user_data_dir));
        assert forall|i: int| 0 <= i < kept.len() implies is_stored_instance(
            #[trigger] placed_instances(stored)[i],
            kept[i],
        ) by {
            if i < earlier.len() {
                assert(is_stored_instance(placed_instances(before)[i], earlier[i]));
                assert(placed_instances(stored)[i] == placed_instances(before)[i]);
                assert(kept[i] == earlier[i]);
            }
        }
    }
}

proof fn lemma_wanted_filter(
    list: Seq<SnapshotModel>,
    instance: InstanceModel,
    running: bool,
    session_id: Option<Seq<char>>,
)
    ensures
        wanted_matches(list, instance, running, session_id) == list.filter(
            |s: SnapshotModel|
                session_id matches Some(id) ==> lowercase(s.id) == lowercase(id),
        ).map_values(|s: SnapshotModel| MatchModel { instance, running, snapshot: s }),
    decreases list.len(),
{
    reveal(Seq::filter);
    let keep = |s: SnapshotModel|
        session_id matches Some(id) ==> lowercase(s.id) == lowercase(id);
    let make = |s: SnapshotModel| MatchModel { instance, running, snapshot: s };
    if list.len() > 0 {
        let before = list.drop_last();
        lemma_wanted_filter(before, instance, running, session_id);
        if keep(list.last()) {
            assert(list.filter(keep).map_values(make) =~= before.filter(keep).map_values(
                make,
            ).push(make(list.last())));
        } else {
            assert(list.filter(keep) =~= before.filter(keep));
        }
    } else {
        assert(list.filter(keep).map_values(make) =~= wanted_matches(
            list,
            instance,
            running,
            session_id,
        ));
    }
}

/// What is found in one more instance comes after what was found before: of the sessions that it keeps
/// on disk those that are looked for, in their order, each with the instance and whether it is running.
/// An instance that could not be read is an error, unless there was one before.
pub proof fn matches_come_from_their_instance(
    states: Seq<StateModel>,
    state: StateModel,
    session_id: Option<Seq<char>>,
)
    ensures
        session_matches(Seq::<StateModel>::empty(), session_id) == Ok::<Seq<MatchModel>, Seq<char>>(
            Seq::<MatchModel>::empty(),
        ),
        session_matches(states, session_id) matches Err(e) ==> session_matches(
            states.push(state),
            session_id,
        ) == Err::<Seq<MatchModel>, Seq<char>>(e),
        session_matches(states, session_id) matches Ok(before) ==> match state.sources {
            Err(e) => session_matches(states.push(state), session_id) == Err::<
                Seq<MatchModel>,
                Seq<char>,
            >(e),
            Ok(sources) => match instance_sessions(sources) {
                Err(e) => session_matches(states.push(state), session_id) == Err::<
                    Seq<MatchModel>,
                    Seq<char>,
                >(e),
                Ok(list) => session_matches(states.push(state), session_id) == Ok::<
                    Seq<MatchModel>,
                    Seq<char>,
                >(
                    before + list.filter(
                        |s: SnapshotModel|
                            session_id matches Some(id) ==> lowercase(s.id) == lowercase(id),
                    ).map_values(
                        |s: SnapshotModel|
                            MatchModel {
                                instance: state.instance,
                                running: state.running,
                                snapshot: s,
                            },
                    ),
                ),
            },
        },
{
    let all = states.push(state);
    assert(all.drop_last() =~= states);
    if let Ok(sources) = state.sources {
        if let Ok(list) = instance_sessions(sources) {
            lemma_wanted_filter(list, state.instance, state.running, session_id);
        }
    }
}

} // verus!
