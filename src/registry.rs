use std::collections::hash_map::DefaultHasher;
use std::hash::Hasher;
use vstd::prelude::*;
use vstd::std_specs::hash::DefaultHasherAdditionalSpecFns;

use crate::conventional::path_key;
use crate::crawler::{
    self, batch_view, lemma_held_key_conflicts, lemma_last_offer_wins, lemma_path_kept, lemma_repeated_key_fails, lemma_unoffered_key_kept, run,
    Files, RunState,
};
use crate::dirs::{closed, has_children, indexes, paths_of, Dirs};
use crate::text::trim_end_slashes;
use crate::{ChangeTime, FileInfo, FoArchive, FoMetadata, InfoView, LocationView};

verus! {

/// The four bytes of `k`, least significant first.
pub open spec fn le_bytes(k: u32) -> Seq<u8> {
    seq![
        (k % 256) as u8,
        ((k / 256) % 256) as u8,
        ((k / 65536) % 256) as u8,
        ((k / 16777216) % 256) as u8,
    ]
}

pub fn u32_le_bytes(k: u32) -> (r: Vec<u8>)
    ensures
        r@ == le_bytes(k),
{
    let r = vec![
        (k % 256) as u8,
        ((k / 256) % 256) as u8,
        ((k / 65536) % 256) as u8,
        ((k / 16777216) % 256) as u8,
    ];
    assert(r@ =~= le_bytes(k));
    r
}

/// The fingerprint of a sequence of keys: std's default hasher fed the
/// bytes of each key in order.
pub open spec fn fingerprint(keys: Seq<u32>) -> u64 {
    DefaultHasher::spec_finish(keys.map_values(|k: u32| le_bytes(k)))
}

/// What a cache records of the tree it was built from.
#[derive(Debug)]
pub struct CacheMetadata {
    pub changed: ChangeTime,
    pub local_paths_len: u32,
    pub local_paths_hash: u64,
}

pub open spec fn local_keys(local_paths: Seq<(u32, FileInfo)>) -> Seq<u32> {
    local_paths.map_values(|p: (u32, FileInfo)| p.0)
}

impl CacheMetadata {
    /// The metadata of a build at time `changed` from the local files
    /// `local_paths`: their number and the fingerprint of their keys in
    /// order.
    pub fn new(local_paths: &Vec<(u32, FileInfo)>, changed: ChangeTime) -> (r: CacheMetadata)
        ensures
            r.changed == changed,
            r.local_paths_len == local_paths@.len() as u32,
            r.local_paths_hash == fingerprint(local_keys(local_paths@)),
    {
        let mut hasher = DefaultHasher::new();
        let mut i: usize = 0;
        while i < local_paths.len()
            invariant
                i <= local_paths.len(),
                hasher@ == local_keys(local_paths@).take(i as int).map_values(|k: u32| le_bytes(k)),
            decreases local_paths.len() - i,
        {
            let bytes = u32_le_bytes(local_paths[i].0);
            hasher.write(bytes.as_slice());
            assert(local_keys(local_paths@).take(i + 1) == local_keys(local_paths@).take(
                i as int,
            ).push(local_paths@[i as int].0));
            assert(hasher@ =~= local_keys(local_paths@).take(i + 1).map_values(|k: u32| le_bytes(k)));
            i += 1;
        }
        assert(local_keys(local_paths@).take(i as int) == local_keys(local_paths@));
        CacheMetadata {
            changed,
            local_paths_len: local_paths.len() as u32,
            local_paths_hash: hasher.finish(),
        }
    }
}

/// Why building or recovering the registry failed.
#[derive(Debug)]
pub enum DataInitError {
    /// Reconciling the sources failed.
    GatherPaths(crawler::Error),
    /// The cache is too short to hold its header.
    CacheDeserialize,
    /// A source changed after the cache was written.
    CacheStale,
    /// The cache was written by another format or version.
    CacheIncompatible,
}

/// The registry: archives, files, directory index and what the cache
/// records of them.
#[derive(Debug)]
pub struct FoRegistry {
    pub cache_metadata: CacheMetadata,
    pub archives: Vec<FoArchive>,
    pub files: Files,
    pub dirs: Dirs,
}

/// The outcome of reconciling the archives' files, then the local ones.
pub open spec fn build_outcome(
    archive_paths: Seq<(u32, InfoView)>,
    local_paths: Seq<(u32, InfoView)>,
) -> RunState {
    let first = run(Map::empty(), archive_paths);
    if first.error is Some {
        first
    } else {
        run(first.files, local_paths)
    }
}

/// The time no source may be newer than for a cache to be trusted.
pub open spec fn cache_floor(cache_changed: ChangeTime, built_at: ChangeTime) -> ChangeTime {
    cache_changed.spec_min(built_at)
}

/// A cache written at `cache_changed` and holding `reg` may serve a tree
/// whose configuration changed at `config_changed` and whose local files
/// give `current`.
pub open spec fn cache_is_fresh(
    reg: &FoRegistry,
    cache_changed: ChangeTime,
    config_changed: ChangeTime,
    current: &CacheMetadata,
) -> bool {
    let floor = cache_floor(cache_changed, reg.cache_metadata.changed);
    &&& config_changed.spec_not_after(floor)
    &&& current.local_paths_len == reg.cache_metadata.local_paths_len
    &&& current.local_paths_hash == reg.cache_metadata.local_paths_hash
    &&& forall|i: int| 0 <= i < reg.archives.len() ==> (#[trigger] reg.archives@[i]).changed.spec_not_after(floor)
}

impl FoRegistry {
    pub open spec fn wf(&self) -> bool {
        self.dirs.wf()
    }

    /// An empty registry built at `changed`.
    pub fn stub(changed: ChangeTime) -> (r: FoRegistry)
        ensures
            r.wf(),
            r.archives@.len() == 0,
            r.files@ == Map::<u32, InfoView>::empty(),
            r.dirs@ == Set::<crate::dirs::DirTriple>::empty(),
            r.cache_metadata.changed == changed,
            r.cache_metadata.local_paths_len == 0,
            r.cache_metadata.local_paths_hash == 0,
    {
        FoRegistry {
            cache_metadata: CacheMetadata { changed, local_paths_len: 0, local_paths_hash: 0 },
            archives: Vec::new(),
            files: Files::new(),
            dirs: Dirs::new(),
        }
    }

    /// Builds the registry: the archives' files in order, then the local
    /// files, which take precedence; then the directory index of every
    /// registered path.
    pub fn build(
        archives: Vec<FoArchive>,
        archive_paths: Vec<(u32, FileInfo)>,
        local_paths: Vec<(u32, FileInfo)>,
        cache_metadata: CacheMetadata,
    ) -> (r: Result<FoRegistry, DataInitError>)
        ensures
            ({
                let st = build_outcome(batch_view(archive_paths@), batch_view(local_paths@));
                match r {
                    Ok(reg) => {
                        &&& st.error is None
                        &&& reg.wf()
                        &&& closed(reg.dirs@)
                        &&& reg.files@ == st.files
                        &&& indexes(reg.dirs@, paths_of(reg.files@))
                        &&& reg.archives@ == archives@
                        &&& reg.cache_metadata == cache_metadata
                    },
                    Err(DataInitError::GatherPaths(e)) => st.error == Some(e@),
                    Err(_) => false,
                }
            }),
    {
        let mut files = Files::new();
        match files.reconcile_paths(archive_paths) {
            Ok(_) => {},
            Err(e) => {
                return Err(DataInitError::GatherPaths(e));
            },
        }
        match files.reconcile_paths(local_paths) {
            Ok(_) => {},
            Err(e) => {
                return Err(DataInitError::GatherPaths(e));
            },
        }
        let dirs = Dirs::index_files(&files);
        Ok(FoRegistry { cache_metadata, archives, files, dirs })
    }

    /// Keeps a registry read from a cache only while it is fresh.
    pub fn validate_cache(
        self,
        cache_changed: ChangeTime,
        config_changed: ChangeTime,
        current: &CacheMetadata,
    ) -> (r: Result<FoRegistry, DataInitError>)
        ensures
            cache_is_fresh(&self, cache_changed, config_changed, current) ==> r == Ok::<
                FoRegistry,
                DataInitError,
            >(self),
            !cache_is_fresh(&self, cache_changed, config_changed, current) ==> r
                is Err && r->Err_0 is CacheStale,
    {
        let floor = cache_changed.min(&self.cache_metadata.changed);
        if !config_changed.not_after(&floor) {
            return Err(DataInitError::CacheStale);
        }
        if current.local_paths_len != self.cache_metadata.local_paths_len
            || current.local_paths_hash != self.cache_metadata.local_paths_hash {
            return Err(DataInitError::CacheStale);
        }
        let mut i: usize = 0;
        while i < self.archives.len()
            invariant
                i <= self.archives.len(),
                floor == cache_floor(cache_changed, self.cache_metadata.changed),
                forall|j: int| 0 <= j < i ==> (#[trigger] self.archives@[j]).changed.spec_not_after(floor),
            decreases self.archives.len() - i,
        {
            if !self.archives[i].changed.not_after(&floor) {
                return Err(DataInitError::CacheStale);
            }
            i += 1;
        }
        Ok(self)
    }

    pub fn count_archives(&self) -> (r: usize)
        ensures
            r == self.archives@.len(),
    {
        self.archives.len()
    }

    pub fn files(&self) -> (r: &Files)
        ensures
            r == &self.files,
    {
        &self.files
    }

    /// Whether `path` names a directory of the index.
    pub fn is_dir(&self, path: &str) -> (r: bool)
        requires
            self.wf(),
        ensures
            r == (path@.len() == 0 || has_children(self.dirs@, trim_end_slashes(path@))),
    {
        self.dirs.is_dir(path)
    }

    /// Whether `path`, which must be conventional, is a file, a directory,
    /// or neither.
    pub fn metadata(&self, path: &str) -> (r: Option<FoMetadata>)
        requires
            self.wf(),
        ensures
            self.files@.contains_key(path_key(path@)) ==> r == Some(FoMetadata::File),
            !self.files@.contains_key(path_key(path@)) ==> r == (if path@.len() == 0
                || has_children(self.dirs@, trim_end_slashes(path@)) {
                Some(FoMetadata::Dir)
            } else {
                None::<FoMetadata>
            }),
    {
        if self.files.file_info(path).is_some() {
            Some(FoMetadata::File)
        } else if self.is_dir(path) {
            Some(FoMetadata::Dir)
        } else {
            None
        }
    }

    /// The names of the children of a directory, or `None` where `path`
    /// is no directory.
    pub fn ls_dir(&self, path: &str) -> (r: Option<Vec<String>>)
        requires
            self.wf(),
        ensures
            r is Some <==> (path@.len() == 0 || has_children(self.dirs@, trim_end_slashes(path@))),
            r matches Some(v) ==> {
                &&& forall|i: int|
                    0 <= i < v.len() ==> crate::dirs::has_pair(
                        self.dirs@,
                        trim_end_slashes(path@),
                        #[trigger] v@[i]@,
                    )
                &&& forall|t: crate::dirs::DirTriple|
                    #[trigger] self.dirs@.contains(t) && t.0 == trim_end_slashes(path@) ==> v@.map_values(
                        |s: String| s@,
                    ).contains(t.1)
            },
    {
        match self.dirs.list(path) {
            None => None,
            Some(children) => {
                let mut names: Vec<String> = Vec::new();
                let mut i: usize = 0;
                while i < children.len()
                    invariant
                        i <= children.len(),
                        names@.len() == i,
                        forall|j: int| 0 <= j < i ==> (#[trigger] names@[j])@ == children@[j].0@,
                    decreases children.len() - i,
                {
                    names.push(children[i].0.clone());
                    i += 1;
                }
                proof {
                    let p = trim_end_slashes(path@);
                    assert forall|i: int| 0 <= i < names.len() implies crate::dirs::has_pair(
                        self.dirs@,
                        p,
                        #[trigger] names@[i]@,
                    ) by {
                        assert(self.dirs@.contains((p, children@[i].0@, children@[i].1)));
                        match children@[i].1 {
                            FoMetadata::File => {},
                            FoMetadata::Dir => {},
                        }
                    }
                    assert forall|t: crate::dirs::DirTriple|
                        #[trigger] self.dirs@.contains(t) && t.0 == p implies names@.map_values(
                        |s: String| s@,
                    ).contains(t.1) by {
                        let i = choose|i: int|
                            0 <= i < children.len() && (#[trigger] children@[i]).0@ == t.1
                                && children@[i].1 == t.2;
                        assert(names@.map_values(|s: String| s@)[i] == t.1);
                    }
                }
                Some(names)
            },
        }
    }
}

/// Override order: where no local file has its key, a successful build
/// holds under a key the file of the last archive entry offered under it.
pub proof fn lemma_override_order(
    archive_paths: Seq<(u32, InfoView)>,
    local_paths: Seq<(u32, InfoView)>,
    i: int,
)
    requires
        0 <= i < archive_paths.len(),
        forall|j: int| i < j < archive_paths.len() ==> archive_paths[j].0 != archive_paths[i].0,
        forall|j: int| 0 <= j < local_paths.len() ==> local_paths[j].0 != archive_paths[i].0,
        build_outcome(archive_paths, local_paths).error is None,
    ensures
        build_outcome(archive_paths, local_paths).files.contains_key(archive_paths[i].0),
        build_outcome(archive_paths, local_paths).files[archive_paths[i].0] == archive_paths[i].1,
{
    let first = run(Map::empty(), archive_paths);
    lemma_last_offer_wins(Map::empty(), archive_paths, i);
    lemma_unoffered_key_kept(first.files, local_paths, archive_paths[i].0);
}

/// Local precedence: a successful build holds under a key the last local
/// file offered under it, whatever the archives hold.
pub proof fn lemma_local_precedence(
    archive_paths: Seq<(u32, InfoView)>,
    local_paths: Seq<(u32, InfoView)>,
    i: int,
)
    requires
        0 <= i < local_paths.len(),
        forall|j: int| i < j < local_paths.len() ==> local_paths[j].0 != local_paths[i].0,
        build_outcome(archive_paths, local_paths).error is None,
    ensures
        build_outcome(archive_paths, local_paths).files.contains_key(local_paths[i].0),
        build_outcome(archive_paths, local_paths).files[local_paths[i].0] == local_paths[i].1,
{
    let first = run(Map::empty(), archive_paths);
    lemma_last_offer_wins(first.files, local_paths, i);
}

/// Local ambiguity: two local files under one key with one conventional
/// path make the build fail.
pub proof fn lemma_local_ambiguity_rejected(
    archive_paths: Seq<(u32, InfoView)>,
    local_paths: Seq<(u32, InfoView)>,
    i: int,
    j: int,
)
    requires
        0 <= i < j < local_paths.len(),
        forall|m: int| 0 <= m < local_paths.len() ==> (#[trigger] local_paths[m].1).location is Local,
        local_paths[i].0 == local_paths[j].0,
        local_paths[i].1.conventional_path == local_paths[j].1.conventional_path,
    ensures
        build_outcome(archive_paths, local_paths).error is Some,
{
    let first = run(Map::empty(), archive_paths);
    if first.error is None {
        lemma_repeated_key_fails(first.files, local_paths, i, j);
    }
}

/// Collisions are fatal: two files under one key with different
/// conventional paths make the build fail, archives or local alike.
pub proof fn lemma_collision_fatal(
    archive_paths: Seq<(u32, InfoView)>,
    local_paths: Seq<(u32, InfoView)>,
    i: int,
    j: int,
)
    requires
        0 <= i < j < archive_paths.len() + local_paths.len(),
        (archive_paths + local_paths)[i].0 == (archive_paths + local_paths)[j].0,
        (archive_paths + local_paths)[i].1.conventional_path != (archive_paths
            + local_paths)[j].1.conventional_path,
    ensures
        build_outcome(archive_paths, local_paths).error is Some,
{
    let first = run(Map::empty(), archive_paths);
    let all = archive_paths + local_paths;
    let na = archive_paths.len() as int;
    if j < na {
        assert(all[i] == archive_paths[i]);
        assert(all[j] == archive_paths[j]);
        lemma_repeated_key_fails(Map::empty(), archive_paths, i, j);
    } else if i >= na {
        assert(all[i] == local_paths[i - na]);
        assert(all[j] == local_paths[j - na]);
        if first.error is None {
            lemma_repeated_key_fails(first.files, local_paths, i - na, j - na);
        }
    } else {
        assert(all[i] == archive_paths[i]);
        assert(all[j] == local_paths[j - na]);
        if first.error is None {
            assert(archive_paths.take(na) == archive_paths);
            lemma_path_kept(Map::empty(), archive_paths, i, na, false);
            lemma_held_key_conflicts(first.files, local_paths, j - na);
        }
    }
}

} // verus!
