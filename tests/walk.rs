use code_parser::test_utils::TestDir;
use code_parser::walk::{has_extension, TraversalConfig};

fn cfg(ignore: &[&str], max_depth: usize, ext: &str) -> TraversalConfig {
    TraversalConfig {
        ignore_dirs: ignore.iter().map(|s| s.to_string()).collect(),
        max_depth,
        extension: ext.to_string(),
    }
}

fn path(p: &str) -> Vec<String> {
    p.split('/').map(|s| s.to_string()).collect()
}

#[test]
fn ignored_directories_are_pruned_at_any_depth() {
    let c = cfg(&["node_modules", "target"], 10, "js");
    let files = vec![
        path("index.js"),
        path("node_modules/lib/a.js"),
        path("src/node_modules/b.js"),
        path("src/deep/target/c.js"),
        path("src/app.js"),
        path("src/target.js"),
    ];
    assert_eq!(c.select_files(&files), vec![0, 4, 5]);
    assert!(!c.admits_dir(&path("src/node_modules")));
    assert!(c.admits_dir(&path("src/lib")));
}

#[test]
fn depth_zero_keeps_root_files_only() {
    let c = cfg(&[], 0, "py");
    let files = vec![path("a.py"), path("pkg/b.py"), path("pkg/sub/c.py"), path("d.py")];
    assert_eq!(c.select_files(&files), vec![0, 3]);
    assert!(!c.admits_dir(&path("pkg")));
}

#[test]
fn depth_limit_counts_directories_below_root() {
    let c = cfg(&[], 1, "rs");
    let files = vec![path("a.rs"), path("x/b.rs"), path("x/y/c.rs")];
    assert_eq!(c.select_files(&files), vec![0, 1]);
    assert!(c.admits_dir(&path("x")));
    assert!(!c.admits_dir(&path("x/y")));
}

#[test]
fn only_the_language_extension_is_selected() {
    let c = cfg(&[], 5, "py");
    let files = vec![path("a.py"), path("b.pyc"), path(".py"), path("c.txt"), path("d.tar.py"), path("py")];
    assert_eq!(c.select_files(&files), vec![0, 4]);
    assert!(!c.admits_file(&vec![]));
}

#[test]
fn extensions_follow_the_last_dot() {
    assert!(has_extension("main.rs", "rs"));
    assert!(has_extension("archive.tar.gz", "gz"));
    assert!(!has_extension("archive.tar.gz", "tar.gz"));
    assert!(!has_extension(".rs", "rs"));
    assert!(has_extension(".config.rs", "rs"));
    assert!(has_extension("trailing.", ""));
    assert!(!has_extension("noext", ""));
    assert!(!has_extension("", ""));
}

#[test]
fn ignore_set_membership() {
    let c = cfg(&["venv", "__pycache__"], 5, "py");
    assert!(c.is_ignored("venv"));
    assert!(c.is_ignored("__pycache__"));
    assert!(!c.is_ignored("venv2"));
    assert!(!c.is_ignored(""));
}

#[test]
fn walk_over_an_in_memory_tree() {
    let mut dir = TestDir::new();
    assert_eq!(dir.path, "code_parser_test");
    dir.create_dir("venv");
    dir.create_dir("pkg");
    dir.create_file("main.py", "def main(): pass");
    dir.create_file("venv/site.py", "");
    dir.create_file("pkg/util.py", "");
    dir.create_file("notes.txt", "");
    assert_eq!(dir.dirs, vec!["venv", "pkg"]);
    assert_eq!(dir.files[0].contents, "def main(): pass");
    let files = dir.file_components();
    assert_eq!(files[1], vec!["venv", "site.py"]);
    let c = cfg(&["venv"], 3, "py");
    assert_eq!(c.select_files(&files), vec![0, 2]);
}
