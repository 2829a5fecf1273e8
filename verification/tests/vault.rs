use krypta::gui::Example;
use krypta::storage::{s3_authenticate, Endpoint};
use krypta::vault::sync::{paths_to_sync, PathInfo, PathInfos, SyncReport};

fn strings(v: &[&str]) -> Vec<String> {
    v.iter().map(|s| s.to_string()).collect()
}

#[test]
fn only_unknown_paths_are_synced() {
    let local = strings(&["a.txt", "b/c.txt", "d.txt", "b//c.txt"]);
    let database = strings(&["d.txt", "b/c.txt"]);
    let infos = paths_to_sync(&local, &database);
    let paths: Vec<String> = infos.inner.iter().map(|i| i.path.clone()).collect();
    assert_eq!(paths, vec!["a.txt"]);
    assert!(infos.inner.iter().all(|i| i.size.is_none()));
}

#[test]
fn sizes_are_recorded_once() {
    let mut info = PathInfo::from("x".to_string());
    assert_eq!(info.size_or_default(), 0);
    assert_eq!(info.try_update_size(None), None);
    assert_eq!(info.size, None);
    assert_eq!(info.try_update_size(Some(5)), Some(()));
    assert_eq!(info.try_update_size(Some(9)), None);
    assert_eq!(info.size_or_default(), 5);
}

#[test]
fn populated_infos_become_files() {
    let infos = PathInfos::from(vec![
        PathInfo::from("a".to_string()),
        PathInfo { path: "b".to_string(), size: Some(3) },
        PathInfo::from("c".to_string()),
    ]);
    let infos = infos.populate_all(&vec![Some(10), Some(99), None]);
    let sizes: Vec<Option<u64>> = infos.inner.iter().map(|i| i.size).collect();
    assert_eq!(sizes, vec![Some(10), Some(3), None]);
    let files = infos.into_files();
    assert_eq!(files.len(), 3);
    assert_eq!(files[0].title, "a");
    assert_eq!(files[1].path, "b");
    assert_eq!(files[1].size, 3);
    assert_eq!(files[2].size, 0);
    assert!(files.iter().all(|f| !f.is_remote && !f.is_encrypted));
    let report = SyncReport { processed_files: files.len() };
    assert_eq!(report.processed_files, 3);
}

#[test]
fn example_button_toggles_the_greeting() {
    let mut example = Example::default();
    assert_eq!(example.name(), "Example");
    assert_eq!(example.label(), None);
    example.on_button(false);
    assert_eq!(example.label(), None);
    example.on_button(true);
    assert_eq!(example.label(), Some("Ciao"));
    example.on_button(true);
    assert_eq!(example.label(), None);
}

#[test]
fn authenticating_to_an_endpoint_gives_its_bucket() {
    let endpoint = Endpoint {
        access_key: "access".to_string(),
        secret_key: "secret".to_string(),
        region: "us-west-000".to_string(),
        endpoint_url: "https://s3.example.com".to_string(),
        bucket_name: "archive".to_string(),
    };
    let bucket = s3_authenticate(&endpoint);
    assert!(bucket.is_ok());
    assert_eq!(bucket.ok().unwrap().bucket().name, "archive");
}
