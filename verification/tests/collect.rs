use dircat::collect::{
    collect_files, is_selected, should_prune_dir, should_visit, EntryKind, FileEntry, WalkEntry,
};
use dircat::path::RelPath;
use dircat::pattern::{build_globset, PatternSet};
use dircat::sort::sort_files;

fn set(list: &[&str]) -> PatternSet {
    let patterns: Vec<String> = list.iter().map(|s| s.to_string()).collect();
    build_globset(&patterns).ok().unwrap()
}

fn rel(path: &str) -> RelPath {
    RelPath {
        components: path.split('/').filter(|c| !c.is_empty()).map(|c| c.to_string()).collect(),
    }
}

fn entry(kind: EntryKind, path: &str) -> WalkEntry {
    WalkEntry { kind, full_path: format!("/base/{}", path), rel_path: rel(path) }
}

fn file(path: &str) -> WalkEntry {
    entry(EntryKind::File, path)
}

fn dir(path: &str) -> WalkEntry {
    entry(EntryKind::Directory, path)
}

fn listed(files: &[FileEntry]) -> Vec<String> {
    files.iter().map(|f| f.rel_path.to_text()).collect()
}

#[test]
fn files_come_out_sorted_whatever_the_walk_order() {
    let all = set(&["*"]);
    let none = set(&[]);
    let orders: [[&str; 3]; 6] = [
        ["a.py", "b/c.py", "z.md"],
        ["a.py", "z.md", "b/c.py"],
        ["b/c.py", "a.py", "z.md"],
        ["b/c.py", "z.md", "a.py"],
        ["z.md", "a.py", "b/c.py"],
        ["z.md", "b/c.py", "a.py"],
    ];
    for order in orders {
        let entries: Vec<WalkEntry> = order.iter().map(|p| file(p)).collect();
        let files = collect_files(&entries, &all, &none);
        assert_eq!(listed(&files), vec!["a.py", "b/c.py", "z.md"]);
    }
}

#[test]
fn collected_entries_keep_their_full_paths() {
    let entries = vec![file("z.md"), dir("b"), file("b/c.py")];
    let files = collect_files(&entries, &set(&["*"]), &set(&[]));
    assert_eq!(files.len(), 2);
    assert_eq!(files[0].full_path, "/base/b/c.py");
    assert_eq!(files[0].rel_path, rel("b/c.py"));
    assert_eq!(files[1].full_path, "/base/z.md");
    assert_eq!(files[1].rel_path, rel("z.md"));
}

#[test]
fn directory_sorts_before_sibling_with_longer_name() {
    let entries = vec![file("a.b"), file("a/b"), file("a b/c"), file("a/a")];
    let files = collect_files(&entries, &set(&["*"]), &set(&[]));
    assert_eq!(listed(&files), vec!["a/a", "a/b", "a b/c", "a.b"]);
}

#[test]
fn hidden_directory_is_never_entered() {
    let entries = vec![dir(".git"), file(".git/config.py"), file("main.py"), file("a/.cache/b/c.py")];
    let files = collect_files(&entries, &set(&["*.py"]), &set(&[]));
    assert_eq!(listed(&files), vec!["main.py"]);
    assert!(should_prune_dir(&rel(".git"), &set(&[])));
    assert!(should_prune_dir(&rel("a/.cache"), &set(&[])));
    assert!(!should_visit(EntryKind::Directory, &rel(".git"), &set(&["*.txt"])));
}

#[test]
fn hidden_file_is_not_hidden_from_selection() {
    let entries = vec![file(".env.py"), file("src/.hidden.py")];
    let files = collect_files(&entries, &set(&["*.py"]), &set(&[]));
    assert_eq!(listed(&files), vec![".env.py", "src/.hidden.py"]);
    assert!(should_visit(EntryKind::File, &rel(".env.py"), &set(&[])));
}

#[test]
fn excluded_directory_hides_all_beneath_it() {
    let entries = vec![
        dir("build"),
        file("build/x.py"),
        file("build/deep/er/y.py"),
        file("src/build.py"),
        file("src/ok.py"),
    ];
    let files = collect_files(&entries, &set(&["*.py"]), &set(&["build"]));
    assert_eq!(listed(&files), vec!["src/build.py", "src/ok.py"]);
    assert!(should_prune_dir(&rel("build"), &set(&["build"])));
    assert!(!should_prune_dir(&rel("src"), &set(&["build"])));
}

#[test]
fn directory_is_pruned_by_name_path_or_dotted_path() {
    assert!(should_prune_dir(&rel("a/target"), &set(&["target"])));
    assert!(should_prune_dir(&rel("a/target"), &set(&["a/target"])));
    assert!(should_prune_dir(&rel("a/target"), &set(&["./a/target"])));
    assert!(should_prune_dir(&rel("node_modules"), &set(&["*/node_modules"])));
    assert!(should_prune_dir(&rel("build"), &set(&["./build"])));
    assert!(!should_prune_dir(&rel("a/target"), &set(&["b/target"])));
    assert!(!should_prune_dir(&rel("a/target"), &set(&[])));
    assert!(!should_prune_dir(&rel("a/target"), &set(&["./target"])));
}

#[test]
fn files_below_a_directory_pruned_by_dotted_path_are_left_out() {
    let entries = vec![file("build/x.py"), file("web/node_modules/p/i.py"), file("keep/x.py")];
    let files = collect_files(&entries, &set(&["*.py"]), &set(&["./build", "*/node_modules"]));
    assert_eq!(listed(&files), vec!["keep/x.py"]);
}

#[test]
fn base_directory_is_never_pruned() {
    let base = RelPath { components: vec![] };
    assert!(!should_prune_dir(&base, &set(&["*", "**", ""])));
    assert!(should_visit(EntryKind::Directory, &base, &set(&["*"])));
}

#[test]
fn only_pruned_directories_stop_a_walk() {
    let excluding = set(&["skip", "*.tmp"]);
    assert!(!should_visit(EntryKind::Directory, &rel("skip"), &excluding));
    assert!(should_visit(EntryKind::Directory, &rel("keep"), &excluding));
    assert!(should_visit(EntryKind::File, &rel("skip"), &excluding));
    assert!(should_visit(EntryKind::File, &rel("a.tmp"), &excluding));
    assert!(should_visit(EntryKind::Other, &rel("skip"), &excluding));
    assert!(should_visit(EntryKind::Other, &rel(".link"), &excluding));
}

#[test]
fn file_is_excluded_by_name_or_relative_path() {
    let including = set(&["*.py"]);
    assert!(!is_selected(&file("a/gen.py"), &including, &set(&["gen.py"])));
    assert!(!is_selected(&file("a/gen.py"), &including, &set(&["a/gen.py"])));
    assert!(!is_selected(&file("a/gen.py"), &including, &set(&["a/*"])));
    assert!(is_selected(&file("a/gen.py"), &including, &set(&["b/*"])));
    assert!(is_selected(&file("a/gen.py"), &including, &set(&[])));
}

#[test]
fn file_is_not_excluded_by_dotted_path() {
    let including = set(&["*.py"]);
    assert!(is_selected(&file("gen.py"), &including, &set(&["./gen.py"])));
    assert!(!is_selected(&file("d/gen.py"), &including, &set(&["./d"])));
}

#[test]
fn include_patterns_see_only_the_bare_name() {
    let entries = vec![file("src/a.py"), file("a.py")];
    let files = collect_files(&entries, &set(&["src/*.py"]), &set(&[]));
    assert!(files.is_empty());
    let files = collect_files(&entries, &set(&["a.*"]), &set(&[]));
    assert_eq!(listed(&files), vec!["a.py", "src/a.py"]);
}

#[test]
fn only_regular_files_are_selected() {
    let entries = vec![dir("a.py"), entry(EntryKind::Other, "link.py"), file("real.py"), dir("")];
    let files = collect_files(&entries, &set(&["*.py"]), &set(&[]));
    assert_eq!(listed(&files), vec!["real.py"]);
    let base_as_file = WalkEntry {
        kind: EntryKind::File,
        full_path: "/base.py".to_string(),
        rel_path: RelPath { components: vec![] },
    };
    assert!(!is_selected(&base_as_file, &set(&["*"]), &set(&[])));
}

#[test]
fn nothing_walked_gives_nothing() {
    let files = collect_files(&[], &set(&["*"]), &set(&[]));
    assert!(files.is_empty());
    let files = collect_files(&[file("a.txt")], &set(&["*.md"]), &set(&[]));
    assert!(files.is_empty());
}

#[test]
fn sorting_keeps_every_entry() {
    let names = ["q", "c/d", "a", "c", "b/z/a", "b/a", "zz", "b", "m/n/o/p", "aa"];
    let files: Vec<FileEntry> = names
        .iter()
        .map(|n| FileEntry { full_path: format!("/r/{}", n), rel_path: rel(n) })
        .collect();
    let sorted = sort_files(&files);
    let mut expected: Vec<&str> = names.to_vec();
    expected.sort_by(|a, b| std::path::Path::new(a).cmp(std::path::Path::new(b)));
    assert_eq!(listed(&sorted), expected);
    for f in &sorted {
        assert_eq!(f.full_path, format!("/r/{}", f.rel_path.to_text()));
    }
}

#[test]
fn sorting_many_entries_agrees_with_std() {
    let mut names: Vec<String> = Vec::new();
    let mut seed: u32 = 12345;
    for _ in 0..500 {
        seed = seed.wrapping_mul(1103515245).wrapping_add(12345);
        let depth = 1 + (seed >> 16) % 3;
        let mut parts: Vec<String> = Vec::new();
        for _ in 0..depth {
            seed = seed.wrapping_mul(1103515245).wrapping_add(12345);
            parts.push(format!("n{}", (seed >> 16) % 40));
        }
        names.push(parts.join("/"));
    }
    let files: Vec<FileEntry> = names
        .iter()
        .map(|n| FileEntry { full_path: n.clone(), rel_path: rel(n) })
        .collect();
    let sorted = sort_files(&files);
    names.sort_by(|a, b| std::path::Path::new(a).cmp(std::path::Path::new(b)));
    assert_eq!(listed(&sorted), names);
}
