use std::path::Path;

use krypta::temp_path::{TempPath, TMP_FILENAME_LENGTH};
use krypta::tmp::{push_name, Tmp, TMP_PATH_LENGTH};
use rand::{rngs::SmallRng, SeedableRng};

#[test]
fn test_generate_random_tmp_path_length() {
    let mut rng = SmallRng::seed_from_u64(0);

    for length in 1..32 {
        let path = Tmp::generate_random_tmp("/tmp/", length, &mut rng);
        let generated_folder = Path::new(&path).iter().last().unwrap();

        assert_eq!(generated_folder.len() - "krypta_".len(), length);
    }
}

#[test]
fn random_tmp_names_are_alphanumeric_under_the_prefix() {
    let mut rng = SmallRng::seed_from_u64(7);
    let path = Tmp::generate_random_tmp("/var/scratch", TMP_PATH_LENGTH, &mut rng);
    assert!(path.starts_with("/var/scratch/krypta_"));
    let name = &path["/var/scratch/krypta_".len()..];
    assert_eq!(name.len(), TMP_PATH_LENGTH);
    assert!(name.chars().all(|c| c.is_ascii_alphanumeric()));
}

#[test]
fn pushing_a_name_adds_one_separator() {
    assert_eq!(push_name("/tmp/", "x"), "/tmp/x");
    assert_eq!(push_name("/tmp", "x"), "/tmp/x");
    assert_eq!(push_name("", "x"), "x");
}

#[test]
fn tmp_prefix_defaults_to_tmp() {
    assert_eq!(Tmp::prefix(None), "/tmp/");
    assert_eq!(Tmp::prefix(Some("/scratch".to_string())), "/scratch");
    assert_eq!(Tmp::prefix_len("/tmp/"), 2);
    assert_eq!(Tmp::prefix_len("/a/b/c"), 4);
}

#[test]
fn tmp_paths_become_relative() {
    let tmp = Tmp::new("/tmp/krypta_abc".to_string());
    assert_eq!(tmp.base_path(), "/tmp/krypta_abc");
    assert_eq!(tmp.to_relative("/tmp/krypta_abc/some/file.txt"), vec!["some", "file.txt"]);
    assert_eq!(tmp.to_relative("/tmp"), Vec::<String>::new());
}

#[test]
fn temp_path_is_a_random_child_of_tmp() {
    let path = TempPath::generate_random_tmp();
    assert!(path.starts_with("/tmp/"));
    let name = &path["/tmp/".len()..];
    assert_eq!(name.len(), TMP_FILENAME_LENGTH);
    assert!(name.chars().all(|c| c.is_ascii_alphanumeric()));
    let temp = TempPath::new(path.clone());
    assert_eq!(temp.path(), path);
}

#[test]
fn scratch_paths_have_one_component_more_than_their_prefix() {
    let mut rng = SmallRng::seed_from_u64(69);
    for prefix in ["/tmp/", "/tmp", "scratch/dir", "./here", "/"] {
        let path = Tmp::generate_random_tmp(prefix, TMP_PATH_LENGTH, &mut rng);
        assert_eq!(Tmp::prefix_len(&path), Tmp::prefix_len(prefix) + 1);
    }
    assert_eq!(Tmp::prefix_len(&Tmp::prefix(None)), 2);
    assert_eq!(Path::new(&TempPath::generate_random_tmp()).iter().count(), 3);
}

#[test]
fn relative_paths_come_back_after_pushing() {
    let tmp = Tmp::new("/tmp/krypta_abc/".to_string());
    let pushed = push_name(&tmp.base_path(), "a//b/./c.txt");
    assert_eq!(tmp.to_relative(&pushed), vec!["a", "b", "c.txt"]);
}

#[test]
fn path_components_follow_unix_splitting() {
    let top = Tmp::new(String::new());
    assert_eq!(top.to_relative("./a/./b//c/"), vec![".", "a", "b", "c"]);
    assert_eq!(top.to_relative("/./a//"), vec!["/", "a"]);
    assert_eq!(top.to_relative("//x/../y"), vec!["/", "x", "..", "y"]);
    assert_eq!(top.to_relative("."), vec!["."]);
    assert_eq!(top.to_relative(""), Vec::<String>::new());
}
