use krypta::database::models::file::File;
use krypta::database::models::tag::Tag;
use krypta::fs::path_finder::{FileMetadata, PathFinder, WalkEntry};
use krypta::krypta::commands::{
    confirms, consistency_report, is_confirmed, prune_targets, status_text, tags_pretty,
};
use krypta::krypta::config::{config_file_path, parse_config_key, Config, ConfigKey};
use krypta::text::{decimal_string, hex_string, signed_decimal_string};

fn stored(hash: &str) -> File {
    let mut f = File::new("t".into(), "p".into(), "c".into(), 1, vec![], vec![]);
    f.random_hash = hash.to_string();
    f
}

fn locked_dir(names: &[&str]) -> PathFinder {
    let walked: Vec<WalkEntry> = names
        .iter()
        .map(|n| WalkEntry {
            path: vec!["locked".to_string(), n.to_string()],
            is_file: true,
            metadata: FileMetadata { len: 1, last_modified: 1 },
        })
        .collect();
    PathFinder::from_walk(1, &walked)
}

#[test]
fn consistency_report_finds_both_kinds_of_missing_files() {
    let files = vec![stored("aa"), stored("bb"), stored("aa"), stored("cc")];
    let found = locked_dir(&["bb", "dd"]);
    let report = consistency_report(&files, &found);
    assert_eq!(report.database_count, 3);
    assert_eq!(report.fs_count, 2);
    let mut missing: Vec<String> = report
        .missing_in_fs
        .iter()
        .map(|i| files[*i].random_hash.clone())
        .collect();
    missing.sort();
    assert_eq!(missing, vec!["aa", "cc"]);
    assert!(report.missing_in_fs.contains(&2));
    assert_eq!(report.missing_in_database, vec![vec!["dd".to_string()]]);
    assert_eq!(report.errors_count, 3);
}

#[test]
fn consistency_report_of_a_consistent_archive() {
    let files = vec![stored("aa"), stored("bb")];
    let found = locked_dir(&["aa", "bb"]);
    let report = consistency_report(&files, &found);
    assert_eq!((report.database_count, report.fs_count, report.errors_count), (2, 2, 0));
}

#[test]
fn prune_targets_each_stored_file_once() {
    let files = vec![stored("aa"), stored("bb"), stored("aa")];
    let mut targets = prune_targets(&vec!["/".to_string(), "locked".to_string()], &files);
    targets.sort();
    assert_eq!(
        targets,
        vec![
            vec!["/".to_string(), "locked".to_string(), "aa".to_string()],
            vec!["/".to_string(), "locked".to_string(), "bb".to_string()],
        ]
    );
}

#[test]
fn tags_are_listed_with_trailing_spaces() {
    assert_eq!(tags_pretty(&vec![]), "(no tags)");
    assert_eq!(tags_pretty(&vec![Tag::new("a"), Tag::new("bc")]), "a bc ");
}

#[test]
fn answers_confirm_when_they_start_with_y() {
    assert!(is_confirmed("y"));
    assert!(is_confirmed("  Yes please\n"));
    assert!(!is_confirmed(""));
    assert!(!is_confirmed("   \n"));
    assert!(!is_confirmed("no"));
    assert!(!is_confirmed(" n y"));
    assert!(confirms("yes"));
    assert!(!confirms("Yes"));
}

#[test]
fn status_shows_count_and_size() {
    assert_eq!(status_text(12, 999), "Files stored in database: 12\nArchive size: 999 B");
    assert_eq!(status_text(0, 0), "Files stored in database: 0\nArchive size: 0 B");
    assert_eq!(status_text(3, 1_500_000), "Files stored in database: 3\nArchive size: 1.50 MB");
}

#[test]
fn numbers_in_decimal() {
    assert_eq!(decimal_string(0), "0");
    assert_eq!(decimal_string(1_234_567_890), "1234567890");
    assert_eq!(decimal_string(u64::MAX), u64::MAX.to_string());
    assert_eq!(signed_decimal_string(-42), "-42");
    assert_eq!(signed_decimal_string(i64::MIN), i64::MIN.to_string());
    assert_eq!(hex_string(&vec![0, 15, 16, 255]), "000f10ff");
}

#[test]
fn config_keys_and_values() {
    assert_eq!(config_file_path(), "./krypta.toml");
    assert_eq!(parse_config_key("locked"), Some(ConfigKey::Locked));
    assert_eq!(parse_config_key("unlocked"), None);
    let mut config = Config::default();
    assert_eq!(config.value(ConfigKey::Locked), None);
    config.set_value(ConfigKey::Locked, "/data".to_string());
    assert_eq!(config.value(ConfigKey::Locked), Some("/data".to_string()));
}
