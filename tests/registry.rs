use fo_data::crawler::{archive_batch, local_batch, ArchiveEntry, Error, Files};
use fo_data::registry::{CacheMetadata, DataInitError, FoRegistry};
use fo_data::retriever::{LocateError, Source};
use fo_data::{shadowed_files, ChangeTime, FileInfo, FileLocation, FoArchive, FoMetadata};

fn time(secs: u64) -> ChangeTime {
    ChangeTime { secs, nanos: 0 }
}

fn archive(path: &str, secs: u64) -> FoArchive {
    FoArchive { changed: time(secs), path: path.to_string() }
}

fn entry(name: &str, size: u64) -> ArchiveEntry {
    ArchiveEntry { name: name.to_string(), compressed_size: size, is_dir: false }
}

fn dir_entry(name: &str) -> ArchiveEntry {
    ArchiveEntry { name: name.to_string(), compressed_size: 0, is_dir: true }
}

fn build(
    archives: Vec<FoArchive>,
    batches: Vec<Vec<ArchiveEntry>>,
    local: Vec<(&str, &str)>,
) -> Result<FoRegistry, DataInitError> {
    let mut archive_paths = Vec::new();
    for (i, entries) in batches.iter().enumerate() {
        archive_paths.extend(archive_batch(i as u16, entries));
    }
    let local: Vec<(String, String)> =
        local.into_iter().map(|(r, a)| (r.to_string(), a.to_string())).collect();
    let local_paths = local_batch(&local);
    let meta = CacheMetadata::new(&local_paths, time(100));
    FoRegistry::build(archives, archive_paths, local_paths, meta)
}

fn archive_of(reg: &FoRegistry, path: &str) -> u16 {
    match reg.locate(path) {
        Ok(Source::Archive { index, .. }) => index,
        other => panic!("expected an archive, got {:?}", other),
    }
}

#[test]
fn later_archive_overrides_earlier() {
    let reg = build(
        vec![archive("a.zip", 1), archive("b.zip", 1)],
        vec![vec![entry("X", 1)], vec![entry("x", 2)]],
        vec![],
    )
    .unwrap();
    assert_eq!(archive_of(&reg, "x"), 1);
    match reg.locate("x") {
        Ok(Source::Archive { archive_path, entry_name, .. }) => {
            assert_eq!(archive_path, "b.zip");
            assert_eq!(entry_name, "x");
        }
        other => panic!("{:?}", other),
    }

    let reversed = build(
        vec![archive("b.zip", 1), archive("a.zip", 1)],
        vec![vec![entry("x", 2)], vec![entry("X", 1)]],
        vec![],
    )
    .unwrap();
    match reversed.locate("x") {
        Ok(Source::Archive { archive_path, entry_name, .. }) => {
            assert_eq!(archive_path, "a.zip");
            assert_eq!(entry_name, "X");
        }
        other => panic!("{:?}", other),
    }
}

#[test]
fn local_file_takes_precedence() {
    for order in [false, true] {
        let (archives, batches) = if order {
            (vec![archive("a.zip", 1), archive("b.zip", 1)], vec![vec![entry("x", 1)], vec![]])
        } else {
            (vec![archive("b.zip", 1), archive("a.zip", 1)], vec![vec![], vec![entry("x", 1)]])
        };
        let reg = build(archives, batches, vec![("x", "/data/x")]).unwrap();
        match reg.locate("x") {
            Ok(Source::Local { path }) => assert_eq!(path, "/data/x"),
            other => panic!("{:?}", other),
        }
    }
}

#[test]
fn local_ambiguity_is_rejected() {
    let r = build(vec![], vec![], vec![("Data\\A.txt", "/d/Data/A.txt"), ("data/a.txt", "/d/data/a.txt")]);
    match r {
        Err(DataInitError::GatherPaths(Error::LocalRewrite { file, old, new })) => {
            assert_eq!(file, "data/a.txt");
            assert!(matches!(old, FileLocation::Local { original_path } if original_path == "/d/Data/A.txt"));
            assert!(matches!(new, FileLocation::Local { original_path } if original_path == "/d/data/a.txt"));
        }
        other => panic!("{:?}", other),
    }
}

#[test]
fn key_collision_is_fatal() {
    let mut files = Files::new();
    let a = FileInfo::new_local("one".to_string(), "/one".to_string());
    let b = FileInfo::new_local("two".to_string(), "/two".to_string());
    let r = files.reconcile_paths(vec![(42, a), (42, b)]);
    match r {
        Err(Error::Conflict { hash, old, new }) => {
            assert_eq!(hash, 42);
            assert_eq!(old.conventional_path(), "one");
            assert_eq!(new.conventional_path(), "two");
        }
        other => panic!("{:?}", other),
    }
    assert_eq!(files.count_files(), 1);
    assert_eq!(files.get(42).unwrap().conventional_path(), "one");
}

#[test]
fn archive_shadowed_by_archive_is_accepted() {
    let mut files = Files::new();
    let a = FileInfo::new_in_archive("p".to_string(), 0, "P".to_string(), 5);
    let b = FileInfo::new_in_archive("p".to_string(), 1, "p".to_string(), 7);
    let events = files.reconcile_paths(vec![(9, a), (9, b)]).unwrap();
    assert_eq!(events.len(), 1);
    assert_eq!(events[0].path, "p");
    assert!(matches!(events[0].old, FileLocation::Archive { index: 0, .. }));
    assert!(matches!(events[0].new, FileLocation::Archive { index: 1, compressed_size: 7, .. }));
    let info = files.get(9).unwrap();
    assert!(matches!(info.location, FileLocation::Archive { index: 1, .. }));
}

#[test]
fn directories_are_synthesized() {
    let reg = build(
        vec![archive("a.zip", 1)],
        vec![vec![entry("a/b/c.txt", 1), dir_entry("a/b/"), entry("a/d.txt", 1)]],
        vec![],
    )
    .unwrap();
    assert!(reg.is_dir("a"));
    assert!(reg.is_dir("a/b"));
    assert!(reg.is_dir("a/b/"));
    assert!(reg.is_dir(""));
    assert!(!reg.is_dir("a/d.txt"));
    assert!(!reg.is_dir("z"));

    let mut children = reg.dirs.list("a").unwrap();
    children.sort();
    assert_eq!(
        children,
        vec![("b".to_string(), FoMetadata::Dir), ("d.txt".to_string(), FoMetadata::File)]
    );
    assert_eq!(reg.dirs.list("a/b").unwrap(), vec![("c.txt".to_string(), FoMetadata::File)]);
    assert_eq!(reg.dirs.list("").unwrap(), vec![("a".to_string(), FoMetadata::Dir)]);
    assert!(reg.dirs.list("q").is_none());

    let mut names = reg.ls_dir("a/").unwrap();
    names.sort();
    assert_eq!(names, vec!["b".to_string(), "d.txt".to_string()]);

    assert_eq!(reg.metadata("a/d.txt"), Some(FoMetadata::File));
    assert_eq!(reg.metadata("a/b"), Some(FoMetadata::Dir));
    assert_eq!(reg.metadata("nothing"), None);
    assert_eq!(reg.files().count_files(), 2);
    assert_eq!(reg.count_archives(), 1);
}

#[test]
fn empty_registry_lists_root() {
    let reg = FoRegistry::stub(time(3));
    assert!(reg.is_dir(""));
    assert_eq!(reg.ls_dir("").unwrap(), Vec::<String>::new());
    assert!(reg.ls_dir("a").is_none());
    assert_eq!(reg.locate("a").unwrap_err(), LocateError::NotFound);
}

#[test]
fn locate_reports_invalid_archive_index() {
    let files = Files::from_pairs(vec![(
        fo_data::conventional::key_of("x"),
        FileInfo::new_in_archive("x".to_string(), 3, "x".to_string(), 1),
    )])
    .unwrap();
    let mut reg = FoRegistry::stub(time(0));
    reg.files = files;
    assert_eq!(reg.locate("x").unwrap_err(), LocateError::InvalidArchiveIndex);
    assert!(reg.file_location("x").is_none());
}

#[test]
fn file_location_names_the_archive() {
    let reg = build(vec![archive("a.zip", 1)], vec![vec![entry("Q.FRM", 4)]], vec![("l.txt", "/abs/l.txt")]).unwrap();
    assert_eq!(reg.file_location("q.frm").unwrap(), "a.zip");
    assert_eq!(reg.file_location("l.txt").unwrap(), "/abs/l.txt");
    let info = reg.files().file_info("q.frm").unwrap();
    assert_eq!(info.location(&reg).unwrap(), "a.zip");
    assert_eq!(info.hash(), fo_data::conventional::key_of("q.frm"));
}

#[test]
fn archive_batch_skips_directories() {
    let batch = archive_batch(2, &vec![dir_entry("d/"), entry("D/F.TXT", 9)]);
    assert_eq!(batch.len(), 1);
    assert_eq!(batch[0].0, fo_data::conventional::key_of("d/f.txt"));
    assert_eq!(batch[0].1.conventional_path(), "d/f.txt");
    assert!(matches!(&batch[0].1.location,
        FileLocation::Archive { index: 2, original_path, compressed_size: 9 } if original_path == "D/F.TXT"));
}

#[test]
fn shadowed_files_lists_archive_replacements() {
    let archives = vec![archive("a.zip", 1), archive("b.zip", 1)];
    let mut paths = archive_batch(0, &vec![entry("x", 1), entry("y", 2)]);
    paths.extend(archive_batch(1, &vec![entry("X", 3)]));
    let shadowed = shadowed_files(&archives, paths).unwrap();
    assert_eq!(shadowed.len(), 1);
    assert_eq!(shadowed[0].name, "x");
    assert_eq!(shadowed[0].size, 3);
    assert_eq!(shadowed[0].first_source, "a.zip");
    assert_eq!(shadowed[0].second_source, "b.zip");
}
