use std::collections::HashMap;
use vstd::prelude::*;

use crate::conventional::{conventional, key_of, make_path_conventional, path_key};
use crate::{FileInfo, FileLocation, FoArchive, InfoView, LocationView};

verus! {

broadcast use vstd::std_specs::hash::group_hash_axioms;

/// Why reconciling a batch of files failed.
#[derive(Debug)]
#[allow(inconsistent_fields)]
pub enum Error {
    /// Two different conventional paths have the same key.
    Conflict { hash: u32, old: FileInfo, new: FileInfo },
    /// Two local files have the same conventional path.
    LocalRewrite { file: String, old: FileLocation, new: FileLocation },
}

#[allow(inconsistent_fields)]
pub enum ErrorView {
    Conflict { hash: u32, old: InfoView, new: InfoView },
    LocalRewrite { file: Seq<char>, old: LocationView, new: LocationView },
}

impl View for Error {
    type V = ErrorView;

    open spec fn view(&self) -> ErrorView {
        match self {
            Error::Conflict { hash, old, new } => ErrorView::Conflict {
                hash: *hash,
                old: old@,
                new: new@,
            },
            Error::LocalRewrite { file, old, new } => ErrorView::LocalRewrite {
                file: file@,
                old: old@,
                new: new@,
            },
        }
    }
}

/// A file of a later source that replaced the same file of an earlier one.
#[derive(Debug)]
pub struct ShadowEvent {
    pub path: String,
    pub old: FileLocation,
    pub new: FileLocation,
}

pub struct ShadowView {
    pub path: Seq<char>,
    pub old: LocationView,
    pub new: LocationView,
}

impl View for ShadowEvent {
    type V = ShadowView;

    open spec fn view(&self) -> ShadowView {
        ShadowView { path: self.path@, old: self.old@, new: self.new@ }
    }
}

/// The state of a reconciliation: the files so far, the shadowing seen so
/// far, and the error that stopped it, if any.
pub struct RunState {
    pub files: Map<u32, InfoView>,
    pub shadows: Seq<ShadowView>,
    pub error: Option<ErrorView>,
}

/// One file offered under a key to the registry `files`.
pub open spec fn offer(st: RunState, key: u32, info: InfoView) -> RunState {
    if !st.files.contains_key(key) {
        RunState { files: st.files.insert(key, info), ..st }
    } else if st.files[key].conventional_path != info.conventional_path {
        RunState {
            error: Some(ErrorView::Conflict { hash: key, old: st.files[key], new: info }),
            ..st
        }
    } else if st.files[key].location is Local && info.location is Local {
        RunState {
            error: Some(
                ErrorView::LocalRewrite {
                    file: info.conventional_path,
                    old: st.files[key].location,
                    new: info.location,
                },
            ),
            ..st
        }
    } else {
        RunState {
            files: st.files.insert(
                key,
                InfoView { location: info.location, conventional_path: st.files[key].conventional_path },
            ),
            shadows: st.shadows.push(
                ShadowView {
                    path: info.conventional_path,
                    old: st.files[key].location,
                    new: info.location,
                },
            ),
            error: None,
        }
    }
}

/// Offers the files of `batch` in order, starting from `st`, and stops at
/// the first error.
pub open spec fn run_from(st: RunState, batch: Seq<(u32, InfoView)>) -> RunState
    decreases batch.len(),
{
    if batch.len() == 0 {
        st
    } else {
        let prev = run_from(st, batch.drop_last());
        if prev.error is Some {
            prev
        } else {
            offer(prev, batch.last().0, batch.last().1)
        }
    }
}

/// Reconciliation of `batch` into the registry `files`.
pub open spec fn run(files: Map<u32, InfoView>, batch: Seq<(u32, InfoView)>) -> RunState {
    run_from(RunState { files, shadows: Seq::empty(), error: None }, batch)
}

pub open spec fn batch_view(batch: Seq<(u32, FileInfo)>) -> Seq<(u32, InfoView)> {
    batch.map_values(|p: (u32, FileInfo)| (p.0, p.1@))
}

/// The registry: each key maps to one file.
#[derive(Debug)]
pub struct Files {
    pub inner: HashMap<u32, FileInfo>,
}

impl View for Files {
    type V = Map<u32, InfoView>;

    open spec fn view(&self) -> Map<u32, InfoView> {
        self.inner@.map_values(|i: FileInfo| i@)
    }
}

impl Files {
    pub fn new() -> (r: Files)
        ensures
            r@ == Map::<u32, InfoView>::empty(),
    {
        let r = Files { inner: HashMap::new() };
        assert(r@ =~= Map::<u32, InfoView>::empty());
        r
    }

    /// A registry of the given pairs, or `None` where a key repeats.
    pub fn from_pairs(pairs: Vec<(u32, FileInfo)>) -> (r: Option<Files>)
        ensures
            r matches Some(f) ==> forall|k: u32|
                f@.contains_key(k) <==> exists|i: int| 0 <= i < pairs@.len() && (#[trigger] pairs@[i]).0 == k,
            r matches Some(f) ==> forall|i: int|
                0 <= i < pairs@.len() ==> f@[(#[trigger] pairs@[i]).0] == pairs@[i].1@,
            r is None ==> exists|i: int, j: int|
                0 <= i < j < pairs@.len() && (#[trigger] pairs@[i]).0 == (#[trigger] pairs@[j]).0,
    {
        let mut files = Files::new();
        let mut i: usize = 0;
        while i < pairs.len()
            invariant
                i <= pairs.len(),
                forall|k: u32|
                    files@.contains_key(k) <==> exists|m: int| 0 <= m < i && (#[trigger] pairs@[m]).0 == k,
                forall|m: int| 0 <= m < i ==> files@[(#[trigger] pairs@[m]).0] == pairs@[m].1@,
            decreases pairs.len() - i,
        {
            let key = pairs[i].0;
            if self_contains(&files, key) {
                proof {
                    let m = choose|m: int| 0 <= m < i && (#[trigger] pairs@[m]).0 == key;
                    assert(pairs@[m].0 == pairs@[i as int].0);
                }
                return None;
            }
            files.put(key, pairs[i].1.duplicate());
            i += 1;
        }
        Some(files)
    }

    pub fn get(&self, hash: u32) -> (r: Option<&FileInfo>)
        ensures
            match r {
                Some(info) => self@.contains_key(hash) && info@ == self@[hash],
                None => !self@.contains_key(hash),
            },
    {
        self.inner.get(&hash)
    }

    /// The file registered under the key of `path`, which must already be
    /// conventional.
    pub fn file_info(&self, path: &str) -> (r: Option<&FileInfo>)
        ensures
            match r {
                Some(info) => self@.contains_key(path_key(path@)) && info@ == self@[path_key(
                    path@,
                )],
                None => !self@.contains_key(path_key(path@)),
            },
    {
        self.get(key_of(path))
    }

    /// The keys of the registry, each once, in no particular order.
    pub fn keys(&self) -> (r: Vec<u32>)
        ensures
            r@.to_set() == self@.dom(),
            r@.no_duplicates(),
    {
        let mut out: Vec<u32> = Vec::new();
        for k in it: self.inner.keys()
            invariant
                it.seq().unref().to_set() == self.inner@.dom(),
                it.seq().unref().no_duplicates(),
                out@ == it.seq().unref().take(it.index() as int),
                out@.len() == it.seq().len() ==> out@.to_set() == self.inner@.dom(),
        {
            let ghost i = it.index();
            out.push(*k);
            assert(it.seq().unref().take(i + 1) == it.seq().unref().take(i as int).push(*k));
            assert(out@.len() == it.seq().len() ==> out@ =~= it.seq().unref());
        }
        assert(self@.dom() =~= self.inner@.dom());
        out
    }

    pub fn count_files(&self) -> (r: usize)
        ensures
            r == self@.len(),
    {
        proof {
            assert(self@.dom() =~= self.inner@.dom());
        }
        self.inner.len()
    }

    fn put(&mut self, key: u32, info: FileInfo)
        ensures
            final(self)@ == old(self)@.insert(key, info@),
    {
        self.inner.insert(key, info);
        assert(self@ =~= old(self)@.insert(key, info@));
    }

    /// Offers the files of `paths` to the registry in order. A key that is
    /// free takes the file. A key held by another conventional path is a
    /// conflict; one held by the same path is replaced by the new location,
    /// unless both locations are local. On success the replacements are
    /// returned in order.
    pub fn reconcile_paths(&mut self, paths: Vec<(u32, FileInfo)>) -> (r: Result<
        Vec<ShadowEvent>,
        Error,
    >)
        ensures
            ({
                let st = run(old(self)@, batch_view(paths@));
                &&& final(self)@ == st.files
                &&& match r {
                    Ok(events) => st.error is None && events@.map_values(|e: ShadowEvent| e@)
                        == st.shadows,
                    Err(e) => st.error == Some(e@),
                }
            }),
    {
        let ghost start = self@;
        let ghost bv = batch_view(paths@);
        let mut events: Vec<ShadowEvent> = Vec::new();
        let mut i: usize = 0;
        while i < paths.len()
            invariant
                0 <= i <= paths.len(),
                start == old(self)@,
                bv == batch_view(paths@),
                ({
                    let st = run(start, bv.take(i as int));
                    &&& st.error is None
                    &&& self@ == st.files
                    &&& events@.map_values(|e: ShadowEvent| e@) == st.shadows
                }),
            decreases paths.len() - i,
        {
            let key = paths[i].0;
            let info = &paths[i].1;
            proof {
                assert(bv.take(i + 1).drop_last() == bv.take(i as int));
                assert(bv.take(i + 1).last() == (key, info@));
                assert(run(start, bv.take(i + 1)) == offer(run(start, bv.take(i as int)), key, info@));
            }
            let existing = self.get(key);
            match existing {
                None => {
                    self.put(key, info.duplicate());
                },
                Some(old_info) => {
                    if !(old_info.conventional_path == info.conventional_path) {
                        let e = Error::Conflict {
                            hash: key,
                            old: old_info.duplicate(),
                            new: info.duplicate(),
                        };
                        proof {
                            lemma_run_stops(start, bv, i as int + 1);
                        }
                        return Err(e);
                    }
                    if old_info.location.is_local() && info.location.is_local() {
                        let e = Error::LocalRewrite {
                            file: info.conventional_path.clone(),
                            old: old_info.location.duplicate(),
                            new: info.location.duplicate(),
                        };
                        proof {
                            lemma_run_stops(start, bv, i as int + 1);
                        }
                        return Err(e);
                    }
                    let event = ShadowEvent {
                        path: info.conventional_path.clone(),
                        old: old_info.location.duplicate(),
                        new: info.location.duplicate(),
                    };
                    let updated = FileInfo {
                        location: info.location.duplicate(),
                        conventional_path: old_info.conventional_path.clone(),
                    };
                    self.put(key, updated);
                    let ghost prev_events = events@;
                    events.push(event);
                    proof {
                        assert(events@.map_values(|e: ShadowEvent| e@) =~= prev_events.map_values(
                            |e: ShadowEvent| e@,
                        ).push(event@));
                    }
                },
            }
            i += 1;
        }
        assert(bv.take(i as int) == bv);
        Ok(events)
    }
}

fn self_contains(files: &Files, key: u32) -> (r: bool)
    ensures
        r == files@.contains_key(key),
{
    files.get(key).is_some()
}

/// Once a reconciliation has failed, later files change nothing.
pub proof fn lemma_run_stops(files: Map<u32, InfoView>, batch: Seq<(u32, InfoView)>, n: int)
    requires
        0 <= n <= batch.len(),
        run(files, batch.take(n)).error is Some,
    ensures
        run(files, batch) == run(files, batch.take(n)),
    decreases batch.len() - n,
{
    if n < batch.len() {
        assert(batch.take(n + 1).drop_last() == batch.take(n));
        assert(run(files, batch.take(n + 1)) == run(files, batch.take(n)));
        lemma_run_stops(files, batch, n + 1);
    } else {
        assert(batch.take(n) == batch);
    }
}

} // verus!

verus! {

/// Reconciling one more entry of a batch.
pub proof fn lemma_run_step(files: Map<u32, InfoView>, batch: Seq<(u32, InfoView)>, n: int)
    requires
        0 <= n < batch.len(),
    ensures
        run(files, batch.take(n + 1)) == (if run(files, batch.take(n)).error is Some {
            run(files, batch.take(n))
        } else {
            offer(run(files, batch.take(n)), batch[n].0, batch[n].1)
        }),
{
    assert(batch.take(n + 1).drop_last() == batch.take(n));
    assert(batch.take(n + 1).last() == batch[n]);
}

/// A reconciliation that succeeds succeeded on each prefix.
pub proof fn lemma_run_prefix_ok(files: Map<u32, InfoView>, batch: Seq<(u32, InfoView)>, n: int)
    requires
        0 <= n <= batch.len(),
        run(files, batch).error is None,
    ensures
        run(files, batch.take(n)).error is None,
{
    if run(files, batch.take(n)).error is Some {
        lemma_run_stops(files, batch, n);
    }
}

proof fn lemma_offer_kept(files: Map<u32, InfoView>, batch: Seq<(u32, InfoView)>, i: int, n: int)
    requires
        0 <= i < n <= batch.len(),
        forall|j: int| i < j < n ==> batch[j].0 != batch[i].0,
        run(files, batch.take(n)).error is None,
    ensures
        run(files, batch.take(n)).files.contains_key(batch[i].0),
        run(files, batch.take(n)).files[batch[i].0] == batch[i].1,
    decreases n,
{
    lemma_run_step(files, batch, n - 1);
    if n - 1 > i {
        lemma_offer_kept(files, batch, i, n - 1);
    }
}

/// Last declaration wins: after a successful reconciliation each key holds
/// the file of the last entry offered under it.
pub proof fn lemma_last_offer_wins(files: Map<u32, InfoView>, batch: Seq<(u32, InfoView)>, i: int)
    requires
        0 <= i < batch.len(),
        forall|j: int| i < j < batch.len() ==> batch[j].0 != batch[i].0,
        run(files, batch).error is None,
    ensures
        run(files, batch).files.contains_key(batch[i].0),
        run(files, batch).files[batch[i].0] == batch[i].1,
{
    assert(batch.take(batch.len() as int) == batch);
    lemma_offer_kept(files, batch, i, batch.len() as int);
}

/// A key that no entry offers keeps what the registry held under it.
pub proof fn lemma_unoffered_key_kept(files: Map<u32, InfoView>, batch: Seq<(u32, InfoView)>, k: u32)
    requires
        forall|j: int| 0 <= j < batch.len() ==> batch[j].0 != k,
    ensures
        run(files, batch).files.contains_key(k) == files.contains_key(k),
        files.contains_key(k) ==> run(files, batch).files[k] == files[k],
    decreases batch.len(),
{
    if batch.len() > 0 {
        lemma_unoffered_key_kept(files, batch.drop_last(), k);
    }
}

pub proof fn lemma_path_kept(
    files: Map<u32, InfoView>,
    batch: Seq<(u32, InfoView)>,
    i: int,
    n: int,
    all_local: bool,
)
    requires
        0 <= i < n <= batch.len(),
        all_local ==> forall|m: int|
            i <= m < n && batch[m].0 == batch[i].0 ==> (#[trigger] batch[m].1).location is Local,
        run(files, batch.take(n)).error is None,
    ensures
        run(files, batch.take(n)).files.contains_key(batch[i].0),
        run(files, batch.take(n)).files[batch[i].0].conventional_path == batch[i].1.conventional_path,
        all_local ==> run(files, batch.take(n)).files[batch[i].0].location is Local,
    decreases n,
{
    lemma_run_step(files, batch, n - 1);
    if n - 1 > i {
        lemma_path_kept(files, batch, i, n - 1, all_local);
    }
}

/// Two entries under one key make a reconciliation fail when their
/// conventional paths differ, or when every entry offered under that key
/// from the first of them to the second is local.
pub proof fn lemma_repeated_key_fails(
    files: Map<u32, InfoView>,
    batch: Seq<(u32, InfoView)>,
    i: int,
    j: int,
)
    requires
        0 <= i < j < batch.len(),
        batch[i].0 == batch[j].0,
        batch[i].1.conventional_path != batch[j].1.conventional_path || forall|m: int|
            i <= m <= j && batch[m].0 == batch[i].0 ==> (#[trigger] batch[m].1).location is Local,
    ensures
        run(files, batch).error is Some,
{
    let all_local = forall|m: int|
        i <= m <= j && batch[m].0 == batch[i].0 ==> (#[trigger] batch[m].1).location is Local;
    if run(files, batch.take(j)).error is Some {
        lemma_run_stops(files, batch, j);
    } else {
        lemma_path_kept(files, batch, i, j, all_local);
        lemma_run_step(files, batch, j);
        lemma_run_stops(files, batch, j + 1);
    }
}

proof fn lemma_held_path_kept(files: Map<u32, InfoView>, batch: Seq<(u32, InfoView)>, k: u32, n: int)
    requires
        0 <= n <= batch.len(),
        files.contains_key(k),
        run(files, batch.take(n)).error is None,
    ensures
        run(files, batch.take(n)).files.contains_key(k),
        run(files, batch.take(n)).files[k].conventional_path == files[k].conventional_path,
    decreases n,
{
    if n > 0 {
        lemma_run_step(files, batch, n - 1);
        lemma_held_path_kept(files, batch, k, n - 1);
    } else {
        assert(batch.take(0).len() == 0);
    }
}

/// An entry under a key that the registry holds for another conventional
/// path makes a reconciliation fail.
pub proof fn lemma_held_key_conflicts(files: Map<u32, InfoView>, batch: Seq<(u32, InfoView)>, j: int)
    requires
        0 <= j < batch.len(),
        files.contains_key(batch[j].0),
        files[batch[j].0].conventional_path != batch[j].1.conventional_path,
    ensures
        run(files, batch).error is Some,
{
    if run(files, batch.take(j)).error is Some {
        lemma_run_stops(files, batch, j);
    } else {
        lemma_held_path_kept(files, batch, batch[j].0, j);
        lemma_run_step(files, batch, j);
        lemma_run_stops(files, batch, j + 1);
    }
}

/// An entry of an archive's table of contents.
#[derive(Debug)]
pub struct ArchiveEntry {
    pub name: String,
    pub compressed_size: u64,
    pub is_dir: bool,
}

/// What the registry is offered for a file entry of archive `index`.
pub open spec fn archive_entry_file(index: u16, e: ArchiveEntry) -> (u32, InfoView) {
    (
        path_key(conventional(e.name@)),
        InfoView {
            location: LocationView::Archive {
                index,
                original_path: e.name@,
                compressed_size: e.compressed_size,
            },
            conventional_path: conventional(e.name@),
        },
    )
}

/// What the registry is offered for a local file at `absolute`, found at
/// `relative` under the root.
pub open spec fn local_entry_file(relative: Seq<char>, absolute: Seq<char>) -> (u32, InfoView) {
    (
        path_key(conventional(relative)),
        InfoView {
            location: LocationView::Local { original_path: absolute },
            conventional_path: conventional(relative),
        },
    )
}

/// The files of archive `archive_index`: each entry that is no directory,
/// in order, under the key of its conventional name.
pub fn archive_batch(archive_index: u16, entries: &Vec<ArchiveEntry>) -> (r: Vec<(u32, FileInfo)>)
    ensures
        batch_view(r@) == entries@.filter(|e: ArchiveEntry| !e.is_dir).map_values(
            |e: ArchiveEntry| archive_entry_file(archive_index, e),
        ),
{
    let mut out: Vec<(u32, FileInfo)> = Vec::new();
    let mut i: usize = 0;
    while i < entries.len()
        invariant
            i <= entries.len(),
            batch_view(out@) == entries@.take(i as int).filter(|e: ArchiveEntry| !e.is_dir).map_values(
                |e: ArchiveEntry| archive_entry_file(archive_index, e),
            ),
        decreases entries.len() - i,
    {
        let e = &entries[i];
        assert(entries@.take(i + 1) == entries@.take(i as int).push(*e));
        proof {
            entries@.take(i as int).lemma_filter_push(*e, |e: ArchiveEntry| !e.is_dir);
        }
        if !e.is_dir {
            let conventional_path = make_path_conventional(e.name.as_str());
            let info = FileInfo::new_in_archive(
                conventional_path,
                archive_index,
                e.name.clone(),
                e.compressed_size,
            );
            let key = info.hash();
            let ghost prev = out@;
            out.push((key, info));
            assert(batch_view(out@) =~= batch_view(prev).push(archive_entry_file(archive_index, *e)));
        }
        i += 1;
    }
    assert(entries@.take(i as int) == entries@);
    out
}

/// The files of the local tree, in order: each found at a relative path
/// under the root and at an absolute one.
pub fn local_batch(entries: &Vec<(String, String)>) -> (r: Vec<(u32, FileInfo)>)
    ensures
        batch_view(r@) == entries@.map_values(
            |e: (String, String)| local_entry_file(e.0@, e.1@),
        ),
        forall|i: int| 0 <= i < r@.len() ==> (#[trigger] r@[i]).1@.location is Local,
{
    let mut out: Vec<(u32, FileInfo)> = Vec::new();
    let mut i: usize = 0;
    while i < entries.len()
        invariant
            i <= entries.len(),
            batch_view(out@) == entries@.take(i as int).map_values(
                |e: (String, String)| local_entry_file(e.0@, e.1@),
            ),
            forall|j: int| 0 <= j < out@.len() ==> (#[trigger] out@[j]).1@.location is Local,
        decreases entries.len() - i,
    {
        let conventional_path = make_path_conventional(entries[i].0.as_str());
        let info = FileInfo::new_local(conventional_path, entries[i].1.clone());
        let key = info.hash();
        let ghost prev = out@;
        out.push((key, info));
        assert(entries@.take(i + 1) == entries@.take(i as int).push(entries@[i as int]));
        assert(batch_view(out@) =~= batch_view(prev).push(
            local_entry_file(entries@[i as int].0@, entries@[i as int].1@),
        ));
        i += 1;
    }
    assert(entries@.take(i as int) == entries@);
    out
}

/// A file of one archive replaced by the same file of a later archive.
#[derive(Debug)]
pub struct ShadowedFile {
    pub name: String,
    pub size: u64,
    pub first_source: String,
    pub second_source: String,
}

impl View for ShadowedFile {
    type V = (Seq<char>, u64, Seq<char>, Seq<char>);

    open spec fn view(&self) -> (Seq<char>, u64, Seq<char>, Seq<char>) {
        (self.name@, self.size, self.first_source@, self.second_source@)
    }
}

/// The replacements of one archive's file by another's, with the paths of
/// both archives and the compressed size of the replacing entry.
pub open spec fn archive_shadows(shadows: Seq<ShadowView>, archives: Seq<FoArchive>) -> Seq<
    (Seq<char>, u64, Seq<char>, Seq<char>),
>
    decreases shadows.len(),
{
    if shadows.len() == 0 {
        Seq::empty()
    } else {
        let prev = archive_shadows(shadows.drop_last(), archives);
        let e = shadows.last();
        match (e.old, e.new) {
            (
                LocationView::Archive { index: old_index, .. },
                LocationView::Archive { index: new_index, compressed_size, .. },
            ) => if old_index < archives.len() && new_index < archives.len() {
                prev.push(
                    (e.path, compressed_size, archives[old_index as int].path@, archives[new_index as int].path@),
                )
            } else {
                prev
            },
            _ => prev,
        }
    }
}

/// The files of the archives that later archives replace: `paths` holds
/// the archives' files in their declared order.
pub fn shadowed_files(archives: &Vec<FoArchive>, paths: Vec<(u32, FileInfo)>) -> (r: Result<
    Vec<ShadowedFile>,
    Error,
>)
    ensures
        ({
            let st = run(Map::empty(), batch_view(paths@));
            match r {
                Ok(v) => st.error is None && v@.map_values(|s: ShadowedFile| s@) == archive_shadows(
                    st.shadows,
                    archives@,
                ),
                Err(e) => st.error == Some(e@),
            }
        }),
{
    let mut files = Files::new();
    let events = match files.reconcile_paths(paths) {
        Ok(events) => events,
        Err(e) => {
            return Err(e);
        },
    };
    let ghost sv = events@.map_values(|e: ShadowEvent| e@);
    let mut shadowed: Vec<ShadowedFile> = Vec::new();
    let mut i: usize = 0;
    while i < events.len()
        invariant
            i <= events.len(),
            sv == events@.map_values(|e: ShadowEvent| e@),
            shadowed@.map_values(|s: ShadowedFile| s@) == archive_shadows(sv.take(i as int), archives@),
        decreases events.len() - i,
    {
        let ghost prev = shadowed@;
        assert(sv.take(i + 1).drop_last() == sv.take(i as int));
        assert(sv.take(i + 1).last() == events@[i as int]@);
        match (&events[i].old, &events[i].new) {
            (
                FileLocation::Archive { index: old_index, .. },
                FileLocation::Archive { index: new_index, compressed_size, .. },
            ) => {
                if (*old_index as usize) < archives.len() && (*new_index as usize) < archives.len() {
                    shadowed.push(
                        ShadowedFile {
                            name: events[i].path.clone(),
                            size: *compressed_size,
                            first_source: archives[*old_index as usize].path.clone(),
                            second_source: archives[*new_index as usize].path.clone(),
                        },
                    );
                    assert(shadowed@.map_values(|s: ShadowedFile| s@) =~= prev.map_values(
                        |s: ShadowedFile| s@,
                    ).push(shadowed@[prev.len() as int]@));
                }
            },
            _ => {},
        }
        i += 1;
    }
    assert(sv.take(i as int) == sv);
    Ok(shadowed)
}

} // verus!
