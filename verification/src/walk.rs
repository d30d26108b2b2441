//! The search for session files below a directory.
//!
//! Directories are read elsewhere. A walk says which directory to read next, and is told what it
//! holds. Paths are kept elsewhere too, and are known here by a number each.
use vstd::multiset::Multiset;
use vstd::prelude::*;

use crate::search::ascii_lowercased;
use crate::session_file::is_session_file;

verus! {

// ---------------------------------------------------------------------------------------------
// Walks
// ---------------------------------------------------------------------------------------------
/// What a directory holds under a path: a directory, a file, or neither. The extension is missing
/// where the path has none that is text.
#[derive(Debug, PartialEq, Eq)]
pub struct DirectoryEntry {
    pub path: usize,
    pub is_dir: bool,
    pub is_file: bool,
    pub extension: Option<String>,
}

/// What a directory holds under a path.
#[verifier::ext_equal]
pub struct EntryModel {
    pub path: usize,
    pub is_dir: bool,
    pub is_file: bool,
    pub extension: Option<Seq<char>>,
}

impl DeepView for DirectoryEntry {
    type V = EntryModel;

    open spec fn deep_view(&self) -> EntryModel {
        EntryModel {
            path: self.path,
            is_dir: self.is_dir,
            is_file: self.is_file,
            extension: self.extension.deep_view(),
        }
    }
}

/// Whether an entry is a session file: a file whose extension says so, whatever the case of its
/// letters.
pub open spec fn holds_session(entry: EntryModel) -> bool {
    &&& !entry.is_dir
    &&& entry.is_file
    &&& entry.extension matches Some(e) && ascii_lowercased(e) == ascii_lowercased("jsonl"@)
}

/// The directories among some entries, in order.
pub open spec fn directories_in(entries: Seq<EntryModel>) -> Seq<usize>
    decreases entries.len(),
{
    if entries.len() == 0 {
        Seq::empty()
    } else {
        let before = directories_in(entries.drop_last());
        if entries.last().is_dir {
            before.push(entries.last().path)
        } else {
            before
        }
    }
}

/// The session files among some entries, in order.
pub open spec fn session_files_in(entries: Seq<EntryModel>) -> Seq<usize>
    decreases entries.len(),
{
    if entries.len() == 0 {
        Seq::empty()
    } else {
        let before = session_files_in(entries.drop_last());
        if holds_session(entries.last()) {
            before.push(entries.last().path)
        } else {
            before
        }
    }
}

/// A search for session files: the directories that are yet to be read, and the files that were
/// found.
#[derive(Debug, PartialEq, Eq)]
pub struct SessionFileWalk {
    pub pending: Vec<usize>,
    pub files: Vec<usize>,
}

/// How far a search for session files has come.
#[verifier::ext_equal]
pub struct WalkModel {
    pub pending: Seq<usize>,
    pub files: Seq<usize>,
}

impl View for SessionFileWalk {
    type V = WalkModel;

    open spec fn view(&self) -> WalkModel {
        WalkModel { pending: self.pending@, files: self.files@ }
    }
}

/// A search that begins at a directory, where it exists.
pub open spec fn walk_begun(root: usize, exists_on_disk: bool) -> WalkModel {
    WalkModel {
        pending: if exists_on_disk {
            seq![root]
        } else {
            Seq::empty()
        },
        files: Seq::empty(),
    }
}

/// A search that was told what a directory holds.
pub open spec fn walk_told(w: WalkModel, entries: Seq<EntryModel>) -> WalkModel {
    WalkModel {
        pending: w.pending + directories_in(entries),
        files: w.files + session_files_in(entries),
    }
}

impl SessionFileWalk {
    /// Begins a search at a directory, where it exists.
    pub fn begin(root: usize, exists_on_disk: bool) -> (r: SessionFileWalk)
        ensures
            r@ == walk_begun(root, exists_on_disk),
    {
        let mut pending: Vec<usize> = Vec::new();
        if exists_on_disk {
            pending.push(root);
        }
        SessionFileWalk { pending, files: Vec::new() }
    }

    /// The directory to be read next, the one that was found last; none where all were read.
    pub fn next_directory(&mut self) -> (r: Option<usize>)
        ensures
            final(self).files@ == old(self).files@,
            match r {
                Some(path) => {
                    &&& old(self).pending@.len() > 0
                    &&& path == old(self).pending@.last()
                    &&& final(self).pending@ == old(self).pending@.drop_last()
                },
                None => old(self).pending@.len() == 0 && final(self).pending@
                    == old(self).pending@,
            },
    {
        self.pending.pop()
    }

    /// Takes what a directory holds.
    pub fn on_entries(&mut self, entries: &Vec<DirectoryEntry>)
        ensures
            final(self)@ == walk_told(old(self)@, entries.deep_view()),
    {
        let ghost start = self@;
        let ghost all = entries.deep_view();
        let mut i: usize = 0;
        proof {
            assert(self@ =~= walk_told(start, all.take(0)));
        }
        while i < entries.len()
            invariant
                all == entries.deep_view(),
                i <= entries@.len(),
                self@ == walk_told(start, all.take(i as int)),
            decreases entries@.len() - i,
        {
            let entry = &entries[i];
            let ghost before = self@;
            proof {
                assert(all.take(i + 1).drop_last() =~= all.take(i as int));
                assert(all.take(i + 1).last() == entry.deep_view());
            }
            if entry.is_dir {
                self.pending.push(entry.path);
            } else if entry.is_file {
                let extension: Option<&str> = match &entry.extension {
                    Some(e) => Some(e.as_str()),
                    None => None,
                };
                if is_session_file(extension) {
                    self.files.push(entry.path);
                }
            }
            proof {
                assert(self@ =~= walk_told(start, all.take(i + 1)));
            }
            i += 1;
        }
        proof {
            assert(all.take(i as int) =~= all);
        }
    }
}

// ---------------------------------------------------------------------------------------------
// Laws
// ---------------------------------------------------------------------------------------------
/// Whether a directory has at most `depth` directories one inside the other, itself among them. `disk`
/// says what each directory holds.
pub open spec fn is_within(disk: spec_fn(usize) -> Seq<EntryModel>, path: usize, depth: nat) -> bool
    decreases depth,
{
    depth > 0 && forall|i: int|
        0 <= i < directories_in(disk(path)).len() ==> is_within(
            disk,
            #[trigger] directories_in(disk(path))[i],
            (depth - 1) as nat,
        )
}

/// The session files below a directory, at whatever depth.
pub open spec fn files_below(
    disk: spec_fn(usize) -> Seq<EntryModel>,
    path: usize,
    depth: nat,
) -> Multiset<usize>
    decreases depth, 0nat,
{
    if depth == 0 {
        Multiset::empty()
    } else {
        session_files_in(disk(path)).to_multiset().add(
            all_files_below(disk, directories_in(disk(path)), (depth - 1) as nat),
        )
    }
}

/// The session files below some directories.
pub open spec fn all_files_below(
    disk: spec_fn(usize) -> Seq<EntryModel>,
    paths: Seq<usize>,
    depth: nat,
) -> Multiset<usize>
    decreases depth, paths.len() + 1,
{
    if paths.len() == 0 {
        Multiset::empty()
    } else {
        all_files_below(disk, paths.drop_last(), depth).add(files_below(disk, paths.last(), depth))
    }
}

/// How many directories a directory is made of, itself among them.
pub open spec fn directory_count(
    disk: spec_fn(usize) -> Seq<EntryModel>,
    path: usize,
    depth: nat,
) -> nat
    decreases depth, 0nat,
{
    if depth == 0 {
        0
    } else {
        1 + all_directory_counts(disk, directories_in(disk(path)), (depth - 1) as nat)
    }
}

/// How many directories some directories are made of.
pub open spec fn all_directory_counts(
    disk: spec_fn(usize) -> Seq<EntryModel>,
    paths: Seq<usize>,
    depth: nat,
) -> nat
    decreases depth, paths.len() + 1,
{
    if paths.len() == 0 {
        0
    } else {
        all_directory_counts(disk, paths.drop_last(), depth) + directory_count(
            disk,
            paths.last(),
            depth,
        )
    }
}

/// A search after one more directory was read.
pub open spec fn walk_step(disk: spec_fn(usize) -> Seq<EntryModel>, w: WalkModel) -> WalkModel {
    if w.pending.len() == 0 {
        w
    } else {
        walk_told(
            WalkModel { pending: w.pending.drop_last(), files: w.files },
            disk(w.pending.last()),
        )
    }
}

/// A search after some more directories were read.
pub open spec fn walked(
    disk: spec_fn(usize) -> Seq<EntryModel>,
    w: WalkModel,
    steps: nat,
) -> WalkModel
    decreases steps,
{
    if steps == 0 {
        w
    } else {
        walked(disk, walk_step(disk, w), (steps - 1) as nat)
    }
}

proof fn lemma_deeper(disk: spec_fn(usize) -> Seq<EntryModel>, path: usize, depth: nat)
    requires
        is_within(disk, path, depth),
    ensures
        is_within(disk, path, depth + 1),
        files_below(disk, path, depth + 1) == files_below(disk, path, depth),
        directory_count(disk, path, depth + 1) == directory_count(disk, path, depth),
    decreases depth, 0nat,
{
    let inner = directories_in(disk(path));
    assert forall|i: int| 0 <= i < inner.len() implies is_within(disk, #[trigger] inner[i], depth) by {
        lemma_deeper(disk, inner[i], (depth - 1) as nat);
    }
    lemma_all_deeper(disk, inner, (depth - 1) as nat);
}

proof fn lemma_all_deeper(disk: spec_fn(usize) -> Seq<EntryModel>, paths: Seq<usize>, depth: nat)
    requires
        forall|i: int| 0 <= i < paths.len() ==> is_within(disk, #[trigger] paths[i], depth),
    ensures
        all_files_below(disk, paths, depth + 1) == all_files_below(disk, paths, depth),
        all_directory_counts(disk, paths, depth + 1) == all_directory_counts(disk, paths, depth),
    decreases depth, paths.len() + 1,
{
    if paths.len() > 0 {
        let before = paths.drop_last();
        assert forall|i: int| 0 <= i < before.len() implies is_within(
            disk,
            #[trigger] before[i],
            depth,
        ) by {
            assert(before[i] == paths[i]);
        }
        lemma_all_deeper(disk, before, depth);
        assert(is_within(disk, paths[paths.len() - 1], depth));
        lemma_deeper(disk, paths.last(), depth);
    }
}

proof fn lemma_two_parts(
    disk: spec_fn(usize) -> Seq<EntryModel>,
    a: Seq<usize>,
    b: Seq<usize>,
    depth: nat,
)
    ensures
        all_files_below(disk, a + b, depth) == all_files_below(disk, a, depth).add(
            all_files_below(disk, b, depth),
        ),
        all_directory_counts(disk, a + b, depth) == all_directory_counts(disk, a, depth)
            + all_directory_counts(disk, b, depth),
    decreases b.len(),
{
    if b.len() == 0 {
        assert(a + b =~= a);
        assert(all_files_below(disk, a, depth).add(all_files_below(disk, b, depth))
            =~= all_files_below(disk, a, depth));
    } else {
        lemma_two_parts(disk, a, b.drop_last(), depth);
        assert((a + b).drop_last() =~= a + b.drop_last());
        assert(all_files_below(disk, a + b, depth) =~= all_files_below(disk, a, depth).add(
            all_files_below(disk, b, depth),
        ));
    }
}

proof fn lemma_walk(disk: spec_fn(usize) -> Seq<EntryModel>, w: WalkModel, depth: nat)
    requires
        forall|i: int| 0 <= i < w.pending.len() ==> is_within(disk, #[trigger] w.pending[i], depth),
    ensures
        ({
            let end = walked(disk, w, all_directory_counts(disk, w.pending, depth));
            &&& end.pending.len() == 0
            &&& end.files.to_multiset() == w.files.to_multiset().add(
                all_files_below(disk, w.pending, depth),
            )
        }),
    decreases all_directory_counts(disk, w.pending, depth),
{
    let pending = w.pending;
    if pending.len() == 0 {
        assert(w.files.to_multiset().add(all_files_below(disk, pending, depth))
            =~= w.files.to_multiset());
    } else {
        let path = pending.last();
        let before = pending.drop_last();
        let inner = directories_in(disk(path));
        let found = session_files_in(disk(path));
        let next = walk_step(disk, w);
        assert(is_within(disk, pending[pending.len() - 1], depth));
        assert forall|i: int| 0 <= i < inner.len() implies is_within(disk, #[trigger] inner[i], depth) by {
            lemma_deeper(disk, inner[i], (depth - 1) as nat);
        }
        lemma_all_deeper(disk, inner, (depth - 1) as nat);
        lemma_two_parts(disk, before, inner, depth);
        let d = (depth - 1) as nat;
        assert(d + 1 == depth);
        assert(next.pending == before + inner);
        assert(directory_count(disk, path, depth) == 1 + all_directory_counts(disk, inner, d));
        assert(files_below(disk, path, depth) == found.to_multiset().add(
            all_files_below(disk, inner, d),
        ));
        assert(all_directory_counts(disk, pending, depth) == all_directory_counts(
            disk,
            next.pending,
            depth,
        ) + 1);
        assert forall|i: int| 0 <= i < next.pending.len() implies is_within(
            disk,
            #[trigger] next.pending[i],
            depth,
        ) by {
            if i < before.len() {
                assert(next.pending[i] == pending[i]);
            } else {
                assert(next.pending[i] == inner[i - before.len()]);
            }
        }
        lemma_walk(disk, next, depth);
        vstd::seq_lib::lemma_multiset_commutative(w.files, found);
        assert(w.files.to_multiset().add(all_files_below(disk, pending, depth))
            =~= next.files.to_multiset().add(all_files_below(disk, next.pending, depth)));
    }
}

/// All session files are found: a search that begins at a directory comes to an end, and has then
/// found every session file below that directory, at whatever depth, once for each time that it is
/// there, and nothing else. The directories must end somewhere.
pub proof fn walks_find_all_files(
    disk: spec_fn(usize) -> Seq<EntryModel>,
    root: usize,
    depth: nat,
)
    requires
        is_within(disk, root, depth),
    ensures
        ({
            let end = walked(disk, walk_begun(root, true), directory_count(disk, root, depth));
            &&& end.pending.len() == 0
            &&& end.files.to_multiset() == files_below(disk, root, depth)
        }),
{
    broadcast use vstd::seq_lib::group_to_multiset_ensures;

    let w = walk_begun(root, true);
    lemma_walk(disk, w, depth);
    assert(w.pending.drop_last() =~= Seq::<usize>::empty());
    assert(all_directory_counts(disk, w.pending.drop_last(), depth) == 0);
    assert(all_files_below(disk, w.pending.drop_last(), depth) == Multiset::<usize>::empty());
    assert(Seq::<usize>::empty().to_multiset() =~= Multiset::empty());
    assert(w.files.to_multiset().add(all_files_below(disk, w.pending, depth)) =~= files_below(
        disk,
        root,
        depth,
    ));
}

/// Of what a directory holds, the directories are read later, and the files whose extension is that of
/// session files are kept, in their order; nothing else is.
pub proof fn directories_are_read_and_session_files_kept(entries: Seq<EntryModel>)
    ensures
        directories_in(entries) == entries.filter(|e: EntryModel| e.is_dir).map_values(
            |e: EntryModel| e.path,
        ),
        session_files_in(entries) == entries.filter(
            |e: EntryModel|
                !e.is_dir && e.is_file && (e.extension matches Some(x) && ascii_lowercased(x)
                    == "jsonl"@),
        ).map_values(|e: EntryModel| e.path),
    decreases entries.len(),
{
    reveal(Seq::filter);
    reveal_strlit("jsonl");
    assert(ascii_lowercased("jsonl"@) =~= "jsonl"@);
    let dir = |e: EntryModel| e.is_dir;
    let file = |e: EntryModel|
        !e.is_dir && e.is_file && (e.extension matches Some(x) && ascii_lowercased(x)
            == "jsonl"@);
    let path = |e: EntryModel| e.path;
    if entries.len() > 0 {
        let before = entries.drop_last();
        directories_are_read_and_session_files_kept(before);
        if dir(entries.last()) {
            assert(entries.filter(dir).map_values(path) =~= before.filter(dir).map_values(
                path,
            ).push(path(entries.last())));
        } else {
            assert(entries.filter(dir) =~= before.filter(dir));
        }
        if file(entries.last()) {
            assert(entries.filter(file).map_values(path) =~= before.filter(file).map_values(
                path,
            ).push(path(entries.last())));
        } else {
            assert(entries.filter(file) =~= before.filter(file));
        }
    } else {
        assert(entries.filter(dir).map_values(path) =~= directories_in(entries));
        assert(entries.filter(file).map_values(path) =~= session_files_in(entries));
    }
}

/// A search begins at its directory, where it exists, and with no files; each directory that it is told
/// of adds its own directories and files behind those that are known.
pub proof fn walks_add_what_they_are_told(
    w: WalkModel,
    entries: Seq<EntryModel>,
    root: usize,
)
    ensures
        walk_begun(root, true).pending == seq![root],
        walk_begun(root, false).pending.len() == 0,
        walk_begun(root, true).files.len() == 0,
        walk_begun(root, false).files.len() == 0,
        walk_told(w, entries).pending == w.pending + entries.filter(
            |e: EntryModel| e.is_dir,
        ).map_values(|e: EntryModel| e.path),
        walk_told(w, entries).files == w.files + entries.filter(
            |e: EntryModel|
                !e.is_dir && e.is_file && (e.extension matches Some(x) && ascii_lowercased(x)
                    == "jsonl"@),
        ).map_values(|e: EntryModel| e.path),
{
    directories_are_read_and_session_files_kept(entries);
}

} // verus!
