use krypta::database::models::file::{tree_of_files, File};
use krypta::fs::tree::{PathEntry, PathTree, PathType};

/// A canonical text of a directory's contents: children sorted by name, files as `name`,
/// directories as `name{...}`.
fn describe(entries: &Vec<PathEntry>) -> String {
    let mut parts: Vec<String> = entries
        .iter()
        .map(|entry| match &entry.kind {
            PathType::File => entry.name.clone(),
            PathType::Directory(children) => format!("{}{{{}}}", entry.name, describe(children)),
        })
        .collect();
    parts.sort();
    parts.join(",")
}

fn tree_of(files: &[&str]) -> PathTree {
    let paths: Vec<String> = files.iter().map(|p| p.to_string()).collect();
    PathTree::from_paths(&paths).unwrap()
}

fn joined(paths: Vec<Vec<String>>) -> Vec<String> {
    paths.into_iter().map(|p| p.join("/")).collect()
}

fn assert_same_dirs(found: Vec<Vec<String>>, expected: &[&str]) {
    let found = joined(found);
    assert_eq!(found.len(), expected.len());
    for dir in &found {
        assert!(expected.contains(&dir.as_str()));
    }
}

#[test]
fn test_path_tree_single_in_root() {
    let tree = tree_of(&["hehe.txt"]);
    assert_eq!(describe(tree.structure()), "hehe.txt");
}

#[test]
fn test_path_tree_many_in_root() {
    let files = ["hehe.txt", "ciaociao.txt", "rusty-dick.dat", "no-extension-lol"];
    let tree = tree_of(&files);
    assert_eq!(
        describe(tree.structure()),
        "ciaociao.txt,hehe.txt,no-extension-lol,rusty-dick.dat"
    );
    let directories = tree.directory_structure();
    assert_same_dirs(directories, &[]);
}

#[test]
fn test_path_tree_single_nested() {
    let tree = tree_of(&["some/path/lol/midget-porn.mp4"]);
    assert_eq!(describe(tree.structure()), "some{path{lol{midget-porn.mp4}}}");
    let directories = tree.directory_structure();
    assert_same_dirs(directories, &["some", "some/path", "some/path/lol"]);
}

#[test]
fn test_path_tree_many_nested() {
    let tree = tree_of(&["some/path/lol/midget-porn.mp4", "some/path/lol.dat"]);
    assert_eq!(
        describe(tree.structure()),
        "some{path{lol.dat,lol{midget-porn.mp4}}}"
    );
    let directories = tree.directory_structure();
    assert_same_dirs(directories, &["some", "some/path", "some/path/lol"]);
}

#[test]
fn test_path_tree_many_misc() {
    let files = [
        "bdsm/hard-sex-orgasm.mp3",
        "some/path/lol/midget-porn.mp4",
        "some/path/lol.dat",
        "some/links.txt",
        "super/mega/ultra/nested/dir/x.dat",
        "super/mega/ultra/nested/porn.mp4",
    ];
    let tree = tree_of(&files);
    assert_eq!(
        describe(tree.structure()),
        "bdsm{hard-sex-orgasm.mp3},some{links.txt,path{lol.dat,lol{midget-porn.mp4}}},super{mega{ultra{nested{dir{x.dat},porn.mp4}}}}"
    );
    let directories = tree.directory_structure();
    assert_same_dirs(
        directories,
        &[
            "bdsm",
            "some",
            "some/path",
            "some/path/lol",
            "super",
            "super/mega",
            "super/mega/ultra",
            "super/mega/ultra/nested",
            "super/mega/ultra/nested/dir",
        ],
    );
}

#[test]
fn paths_come_out_sorted_and_once() {
    let tree = tree_of(&["b/z.txt", "a.txt", "b/a.txt", "B.txt"]);
    let paths = joined(tree.paths_ordered());
    assert_eq!(paths, vec!["B.txt", "a.txt", "b/a.txt", "b/z.txt"]);
}

#[test]
fn directories_come_out_shallow_first() {
    let tree = tree_of(&["x/y/z/f", "a/b/f", "a/f"]);
    let dirs = joined(tree.directory_structure());
    assert_eq!(dirs, vec!["a", "x", "a/b", "x/y", "x/y/z"]);
}

#[test]
fn a_file_is_held_once() {
    let paths = vec!["a.txt".to_string(), "a.txt".to_string()];
    assert!(PathTree::from_paths(&paths).is_none());
}

#[test]
fn a_file_cannot_hold_another_file() {
    let paths = vec!["a/b".to_string(), "a/b/c".to_string()];
    assert!(PathTree::from_paths(&paths).is_none());
    let paths = vec!["a/b/c".to_string(), "a/b".to_string()];
    let tree = PathTree::from_paths(&paths).unwrap();
    assert_eq!(joined(tree.paths_ordered()), vec!["a/b/c"]);
}

#[test]
fn insertion_order_does_not_matter() {
    let first = tree_of(&["p/q.txt", "r.txt", "p/s/t.txt"]);
    let second = tree_of(&["p/s/t.txt", "r.txt", "p/q.txt"]);
    assert_eq!(describe(first.structure()), describe(second.structure()));
    assert_eq!(joined(first.paths_ordered()), joined(second.paths_ordered()));
}

#[test]
fn try_insert_reports_conflicts() {
    let mut tree = PathTree::new();
    assert!(tree.try_insert_file_path("docs/readme.md"));
    assert!(!tree.try_insert_file_path("docs/readme.md/inner"));
    assert!(tree.try_insert_file_path("docs"));
    assert!(tree.try_insert_file_path("docs/other.md"));
    assert_eq!(joined(tree.paths_ordered()), vec!["docs/other.md", "docs/readme.md"]);
}

#[test]
fn the_tree_of_stored_files() {
    let files: Vec<File> = ["b/x.txt", "a.txt", "b/y.txt"]
        .iter()
        .map(|p| File::new("t".into(), p.to_string(), "h".into(), 1, vec![], vec![]))
        .collect();
    let tree = tree_of_files(&files).unwrap();
    assert_eq!(joined(tree.paths_ordered()), vec!["a.txt", "b/x.txt", "b/y.txt"]);
    let clash: Vec<File> = ["b", "b/y.txt"]
        .iter()
        .map(|p| File::new("t".into(), p.to_string(), "h".into(), 1, vec![], vec![]))
        .collect();
    assert!(tree_of_files(&clash).is_none());
}
