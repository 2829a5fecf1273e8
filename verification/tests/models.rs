use krypta::database::bigint_as_blob::BigIntAsBlob;
use krypta::database::models::device::{
    host_unique_id_from_machine_id, host_unique_id_from_profiler_json, CurrentDevice, Device,
};
use krypta::database::models::device_config::{DeviceConfig, UpdateDeviceConfig};
use krypta::database::models::file::{File, MetadataFile, Timestamp};
use krypta::database::models::file_device::FileDevice;
use krypta::database::models::file_tag::FileTag;
use krypta::database::models::key::Key;
use krypta::database::models::tag::Tag;
use krypta::database::traits::{
    count_statement, fetch_all_statement, insert_statement, search_pattern, TableName,
};
use krypta::vault::file::File as VaultFile;
use krypta::vault::vault_info::VaultInfo;

fn is_lower_hex(s: &str) -> bool {
    let valid_chars = "0123456789abcdfe";
    s.chars().all(|chr| valid_chars.contains(chr))
}

#[test]
fn test_pseudorandom_hex_string_is_valid_length_and_contains_valid_chars() {
    for _ in 0..10_000 {
        let result = File::random_hash_string();
        assert_eq!(result.len(), 64);
        assert!(is_lower_hex(&result));
    }
}

#[test]
fn test_pseudorandom_sha256_string_is_valid_length_and_contains_valid_chars() {
    for _ in 0..10_000 {
        let result = VaultFile::pseudorandom_sha256_string();
        assert_eq!(result.len(), 64);
        assert!(is_lower_hex(&result));
    }
}

#[test]
fn test_get_host_unique_id() {
    let platform_id = host_unique_id_from_machine_id("4c4c4544004d3710804cb3c04f4e3732\n");
    assert_eq!(platform_id.len(), 36);
}

#[test]
fn host_id_ignores_newlines_and_is_stable() {
    let a = host_unique_id_from_machine_id("abc\n");
    let b = host_unique_id_from_machine_id("abc");
    assert_eq!(a, b);
    assert_ne!(a, host_unique_id_from_machine_id("abd"));
    assert_eq!(a.matches('-').count(), 4);
}

#[test]
fn test_file_new() {
    let file = File::new(
        String::from("x.txt"),
        String::from("foo/bar/x.txt"),
        File::random_hash_string(),
        1337,
        vec![7u8; 32],
        vec![9u8; 24],
    );

    let epoch = Timestamp { seconds: 0, nanoseconds: 0 };
    assert_eq!(file.id, None);
    assert_eq!(file.title, "x.txt".to_string());
    assert_eq!(file.path, String::from("foo/bar/x.txt"));
    assert_eq!(file.random_hash.len(), 64);
    assert_eq!(file.contents_hash.len(), 64);
    assert_eq!(file.size, 1337);
    assert_ne!(file.created_at, epoch);
    assert_ne!(file.updated_at, epoch);
    assert_eq!(file.key.len(), 32);
    assert_eq!(file.nonce.len(), 24);
}

#[test]
fn new_files_get_distinct_random_hashes() {
    let a = File::new("a".into(), "a".into(), "h".into(), 1, vec![], vec![]);
    let b = File::new("a".into(), "a".into(), "h".into(), 1, vec![], vec![]);
    assert_ne!(a.random_hash, b.random_hash);
    assert_eq!(a.created_at, a.updated_at);
}

#[test]
fn encryption_paths_join_source_and_hash() {
    let file = File::new("t".into(), "docs/a.txt".into(), "h".into(), 1, vec![], vec![]);
    let locked = vec!["/".to_string(), "locked".to_string()];
    let source = vec!["/".to_string(), "home".to_string()];
    let (from, to) = file.encryption_source_and_target(&locked, &source);
    assert_eq!(from, vec!["/", "home", "docs", "a.txt"]);
    assert_eq!(to, vec!["/".to_string(), "locked".to_string(), file.random_hash.clone()]);
}

#[test]
fn metadata_files_become_files() {
    let m = MetadataFile::new("dir/file.bin", 42);
    assert_eq!(m.title, "dir/file.bin");
    let file = m.into_file("c".into(), vec![1], vec![2]);
    assert_eq!(file.path, "dir/file.bin");
    assert_eq!(file.size, 42);
    assert_eq!(file.contents_hash, "c");
    assert_eq!(file.id, None);
}

#[test]
fn updating_the_time_keeps_everything_else() {
    let mut file = File::new("t".into(), "p".into(), "h".into(), 3, vec![1], vec![2]);
    let before = file.clone();
    file.update_updated_at();
    assert_eq!(file.title, before.title);
    assert_eq!(file.random_hash, before.random_hash);
    assert_eq!(file.created_at, before.created_at);
    assert!(file.updated_at.seconds >= before.updated_at.seconds);
}

#[test]
fn blob_round_trips() {
    for n in [0u64, 1, 255, 256, 0x0102_0304_0506_0708, u64::MAX] {
        let blob = BigIntAsBlob::from_u64(&n);
        assert_eq!(blob.len(), 8);
        assert_eq!(BigIntAsBlob::from_bytes(&blob), n);
    }
    assert_eq!(BigIntAsBlob::from_u64(&0x0102), vec![2, 1, 0, 0, 0, 0, 0, 0]);
    assert_eq!(BigIntAsBlob::from_bytes(&[1, 0, 0, 0, 0, 0, 0, 1, 99]), 0x0100_0000_0000_0001);
}

#[test]
fn statements_name_their_table_and_fields() {
    let fields = vec!["title".to_string(), "path".to_string()];
    assert_eq!(
        insert_statement("file", &fields),
        "INSERT INTO `file` (`title`,`path`) VALUES (:title,:path) RETURNING *;"
    );
    assert_eq!(fetch_all_statement("tag"), "SELECT * FROM `tag`;");
    assert_eq!(count_statement("device"), "SELECT COUNT(*) FROM `device`");
    assert_eq!(search_pattern("foo"), "%foo%");
}

#[test]
fn table_names_are_snake_case() {
    assert_eq!(FileTag::table_name(), "file_tag");
    assert_eq!(File::table_name(), "file");
    assert_eq!(Device::table_name(), "device");
    assert_eq!(Tag::table_name(), "tag");
}

#[test]
fn keys_come_from_stored_bytes() {
    let bytes: Vec<u8> = (0..32).collect();
    let key = Key::from_stored(&bytes);
    assert_eq!(key.key.to_vec(), bytes);
}

#[test]
fn tags_and_links_between_stored_items() {
    let tag = Tag::new("holiday");
    assert_eq!(tag.id, None);
    assert_eq!(tag.to_display_string(), "holiday");

    let mut file = File::new("t".into(), "p".into(), "h".into(), 1, vec![], vec![]);
    file.id = Some(5);
    let mut stored_tag = Tag::new("x");
    stored_tag.id = Some(9);
    let link = FileTag::new(&file, &stored_tag);
    assert_eq!(link.file_id(), 5);
    assert_eq!(link.tag_id(), 9);

    let mut device = Device::new("platform", "laptop");
    assert_eq!(device.id, None);
    device.id = Some(2);
    let fd = FileDevice::new(&file, &device, true, false, 100);
    assert_eq!((fd.file_id, fd.device_id, fd.is_unlocked, fd.is_encrypted, fd.last_modified), (5, 2, true, false, 100));
}

#[test]
fn device_config_updates_change_one_path() {
    let config = DeviceConfig {
        id: 1,
        device_id: 2,
        locked_path: Some("/test/locked_path/foo/bar".to_string()),
        unlocked_path: None,
    };
    let update = UpdateDeviceConfig::with_unlocked_path(config.clone(), "/test/unlocked_path/foo/bar".to_string());
    assert_eq!(update.locked_path, Some("/test/locked_path/foo/bar".to_string()));
    assert_eq!(update.unlocked_path, Some("/test/unlocked_path/foo/bar".to_string()));
    let update = UpdateDeviceConfig::with_locked_path(config, "/elsewhere".to_string());
    assert_eq!(update.locked_path, Some("/elsewhere".to_string()));
    assert_eq!(update.unlocked_path, None);
    assert_eq!((update.id, update.device_id), (1, 2));
}

#[test]
fn vault_files_and_info() {
    let file = VaultFile::new("t".to_string(), "a/b", false, true, 64);
    assert_eq!(file.path, "a/b");
    assert!(file.is_encrypted && !file.is_remote);
    assert_eq!(file.size, 64);
    assert_eq!(file.random_hash.len(), 64);

    let info = VaultInfo::from_columns("main".to_string(), &vec![0, 1, 0, 0, 0, 0, 0, 0]);
    assert_eq!(info.name, "main");
    assert_eq!(info.total_size, 256);
}

#[test]
fn setting_the_update_time() {
    let mut file = File::new("t".into(), "p".into(), "h".into(), 3, vec![1], vec![2]);
    let before = file.clone();
    let when = Timestamp { seconds: 1_700_000_000, nanoseconds: 5 };
    file.set_updated_at(when);
    assert_eq!(file.updated_at, when);
    assert_eq!(file.created_at, before.created_at);
    assert_eq!(file.path, before.path);
    file.update_updated_at();
    assert!(file.updated_at.nanoseconds < 1_000_000_000);
    assert!(file.updated_at.seconds > 1_700_000_000);
}

#[test]
fn macos_platform_id_comes_from_the_profiler_output() {
    let json = r#"{"SPHardwareDataType":[{"platform_UUID":"A1B2C3D4-0000-1111-2222-333344445555","machine_name":"Mac"}]}"#;
    assert_eq!(
        host_unique_id_from_profiler_json(json),
        Some("A1B2C3D4-0000-1111-2222-333344445555".to_string())
    );
    assert_eq!(host_unique_id_from_profiler_json(r#"{"SPHardwareDataType":[]}"#), None);
    assert_eq!(host_unique_id_from_profiler_json("not json"), None);
}

#[test]
fn the_current_device_is_found_or_made() {
    match Device::current("pid", vec![]) {
        CurrentDevice::ToCreate(d) => {
            assert_eq!((d.id, d.platform_id.as_str(), d.name.as_str()), (None, "pid", "pid"));
        }
        CurrentDevice::Found(_) => panic!("nothing was found"),
    }
    let mut a = Device::new("pid", "first");
    a.id = Some(1);
    let mut b = Device::new("pid", "second");
    b.id = Some(2);
    match Device::current("pid", vec![a, b]) {
        CurrentDevice::Found(d) => assert_eq!(d.id, Some(1)),
        CurrentDevice::ToCreate(_) => panic!("a device was found"),
    }
}
