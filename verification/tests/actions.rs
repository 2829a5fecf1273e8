use krypta::fs::path_finder::{FileMetadata, PathFinder, WalkEntry};
use krypta::krypta::actions::{
    absolute_paths, encryption_targets, find_paths_requiring_insertion_or_update, relative_paths,
    successful_relative_paths, EncryptionReport,
};
use krypta::database::models::file::File;

fn p(s: &str) -> Vec<String> {
    s.split('/').map(|c| c.to_string()).collect()
}

fn meta(len: u64, last_modified: u64) -> FileMetadata {
    FileMetadata { len, last_modified }
}

fn walk(entries: &[(&str, bool, u64, u64)]) -> Vec<WalkEntry> {
    entries
        .iter()
        .map(|(path, is_file, len, modified)| WalkEntry {
            path: p(path),
            is_file: *is_file,
            metadata: meta(*len, *modified),
        })
        .collect()
}

fn finder() -> PathFinder {
    PathFinder::from_walk(
        2,
        &walk(&[
            ("root/src", false, 0, 0),
            ("root/src/a.txt", true, 10, 100),
            ("root/src/sub", false, 0, 0),
            ("root/src/sub/b.txt", true, 20, 200),
            ("root/src/c.txt", true, 30, 300),
        ]),
    )
}

fn keys(f: &PathFinder) -> Vec<String> {
    let mut k: Vec<String> = f.metadatas().iter().map(|(path, _)| path.join("/")).collect();
    k.sort();
    k
}

#[test]
fn path_finder_keeps_files_relative_to_the_source() {
    let f = finder();
    assert_eq!(keys(&f), vec!["a.txt", "c.txt", "sub/b.txt"]);
    let total: u64 = f.metadatas().iter().map(|(_, m)| m.len).sum();
    assert_eq!(total, 60);
}

#[test]
fn path_finder_keeps_the_last_of_a_repeated_path() {
    let f = PathFinder::from_walk(
        1,
        &walk(&[("r/x", true, 1, 1), ("r/x", true, 2, 2)]),
    );
    assert_eq!(f.metadatas().len(), 1);
    assert_eq!(f.metadatas()[0].1, meta(2, 2));
}

#[test]
fn filtering_out_known_paths() {
    let mut f = finder();
    f.filter_out_paths(&vec![p("a.txt"), p("sub/b.txt"), p("missing")]);
    assert_eq!(keys(&f), vec!["c.txt"]);
}

#[test]
fn sync_splits_new_and_changed_files() {
    let f = finder();
    let database = vec![(p("a.txt"), 100), (p("sub/b.txt"), 150)];
    let (insert, update) = find_paths_requiring_insertion_or_update(&f, &database);
    let insert: Vec<String> = insert.iter().map(|(path, _)| path.join("/")).collect();
    let update: Vec<(String, FileMetadata)> =
        update.iter().map(|(path, m)| (path.join("/"), *m)).collect();
    assert_eq!(insert, vec!["c.txt"]);
    assert_eq!(update, vec![("sub/b.txt".to_string(), meta(20, 200))]);
}

#[test]
fn a_second_sync_finds_nothing() {
    let f = finder();
    let database = vec![(p("a.txt"), 100), (p("sub/b.txt"), 200), (p("c.txt"), 300)];
    let (insert, update) = find_paths_requiring_insertion_or_update(&f, &database);
    assert!(insert.is_empty());
    assert!(update.is_empty());
}

#[test]
fn encryption_report_counts_statuses() {
    let report = EncryptionReport::from_status(&vec![true, false, true, true]);
    assert_eq!(report.processed_files, 4);
    assert_eq!(report.errors_count, 1);
    let report = EncryptionReport::from_status(&vec![true]);
    assert_eq!((report.processed_files, report.errors_count), (1, 0));
    let report = EncryptionReport::from_status(&vec![]);
    assert_eq!((report.processed_files, report.errors_count), (0, 0));
}

#[test]
fn encryption_targets_pair_sources_and_hashes() {
    let files = vec![
        File::new("a".into(), "x/a.txt".into(), "h".into(), 1, vec![], vec![]),
        File::new("b".into(), "b.txt".into(), "h".into(), 1, vec![], vec![]),
    ];
    let targets = encryption_targets(&files, &p("src"), &p("enc"));
    assert_eq!(targets.len(), 2);
    assert_eq!(targets[0].0, p("src/x/a.txt"));
    assert_eq!(targets[0].1, vec!["enc".to_string(), files[0].random_hash.clone()]);
    assert_eq!(targets[1].0, p("src/b.txt"));
}

#[test]
fn only_successful_encryptions_are_kept_relative() {
    let status = vec![(p("home/u/a"), true), (p("home/u/b"), false), (p("home/u/c/d"), true)];
    let paths = successful_relative_paths(&status, 2);
    assert_eq!(paths, vec![p("a"), p("c/d")]);
}

#[test]
fn absolute_then_relative_gives_paths_back() {
    let relative = vec![p("a/b"), p("c")];
    let absolute = absolute_paths(&p("root/dir"), &relative);
    assert_eq!(absolute, vec![p("root/dir/a/b"), p("root/dir/c")]);
    assert_eq!(relative_paths(2, &absolute), relative);
}

#[test]
fn a_new_file_is_the_only_one_detected() {
    let f = finder();
    let database = vec![(p("a.txt"), 100), (p("sub/b.txt"), 200)];
    let (insert, update) = find_paths_requiring_insertion_or_update(&f, &database);
    assert_eq!(insert.len(), 1);
    assert_eq!(insert[0], (p("c.txt"), meta(30, 300)));
    assert!(update.is_empty());
}
