use dircat::collect::{collect_files, EntryKind, FileEntry, WalkEntry};
use dircat::path::RelPath;
use dircat::pattern::build_globset;
use dircat::render::{output_markdown, read_error_notice, render_section, FileContent, LoadedFile};

fn rel(path: &str) -> RelPath {
    RelPath { components: path.split('/').map(|c| c.to_string()).collect() }
}

fn entry(path: &str) -> FileEntry {
    FileEntry { full_path: format!("/base/{}", path), rel_path: rel(path) }
}

fn loaded(path: &str, content: FileContent) -> LoadedFile {
    LoadedFile { entry: entry(path), content }
}

fn text(content: &str) -> FileContent {
    FileContent::Text(content.to_string())
}

#[test]
fn section_adds_the_missing_line_break() {
    let out = render_section(&rel("a.txt"), &text("hello"), true);
    assert_eq!(out, "### a.txt\n\n```\nhello\n```\n");
}

#[test]
fn section_adds_no_second_line_break() {
    let out = render_section(&rel("a.txt"), &text("hello\n"), true);
    assert_eq!(out, "### a.txt\n\n```\nhello\n```\n");
    let out = render_section(&rel("a.txt"), &text("hello\n\n"), true);
    assert_eq!(out, "### a.txt\n\n```\nhello\n\n```\n");
}

#[test]
fn section_of_empty_file_holds_one_empty_line() {
    let out = render_section(&rel("empty.rs"), &text(""), true);
    assert_eq!(out, "### empty.rs\n\n```rust\n\n```\n");
}

#[test]
fn section_carries_the_language_tag() {
    let out = render_section(&rel("src/Main.PY"), &text("print(1)\n"), true);
    assert_eq!(out, "### src/Main.PY\n\n```python\nprint(1)\n```\n");
    let out = render_section(&rel("src/main.py"), &text("print(1)\n"), true);
    assert_eq!(out, "### src/main.py\n\n```python\nprint(1)\n```\n");
}

#[test]
fn section_that_is_not_last_ends_with_a_rule() {
    let out = render_section(&rel("a.md"), &text("# A\n"), false);
    assert_eq!(out, "### a.md\n\n```markdown\n# A\n```\n\n---\n\n");
}

#[test]
fn unreadable_file_gets_a_placeholder() {
    let content = FileContent::Unreadable("Permission denied (os error 13)".to_string());
    let out = render_section(&rel("secret.toml"), &content, true);
    assert_eq!(
        out,
        "### secret.toml\n\n```toml\n[Error reading file: Permission denied (os error 13)]\n```\n"
    );
    assert_eq!(
        read_error_notice(&rel("dir/secret.toml"), "Permission denied (os error 13)"),
        "Error reading dir/secret.toml: Permission denied (os error 13)"
    );
}

#[test]
fn unreadable_file_does_not_stop_the_rest() {
    let files = vec![
        loaded("a.py", text("a = 1")),
        loaded("b.py", FileContent::Unreadable("gone".to_string())),
        loaded("c.py", text("c = 3\n")),
    ];
    let out = output_markdown(&files);
    assert_eq!(
        out,
        "### a.py\n\n```python\na = 1\n```\n\n---\n\n\
         ### b.py\n\n```python\n[Error reading file: gone]\n```\n\n---\n\n\
         ### c.py\n\n```python\nc = 3\n```\n"
    );
}

#[test]
fn document_of_no_files_is_empty() {
    assert_eq!(output_markdown(&[]), "");
}

#[test]
fn document_is_the_sections_in_order() {
    let files =
        vec![loaded("a.py", text("1\n")), loaded("b/c.py", text("2")), loaded("z.md", text("3\n"))];
    let mut expected = String::new();
    for i in 0..3 {
        expected.push_str(&render_section(&files[i].entry.rel_path, &files[i].content, i == 2));
    }
    assert_eq!(output_markdown(&files), expected);
    assert_eq!(expected.matches("\n---\n").count(), 2);
    assert!(expected.ends_with("```\n"));
}

#[test]
fn flat_directory_with_one_match_gives_one_section() {
    let walked = vec![
        WalkEntry { kind: EntryKind::Directory, full_path: "/d".to_string(), rel_path: RelPath { components: vec![] } },
        WalkEntry { kind: EntryKind::File, full_path: "/d/a.txt".to_string(), rel_path: rel("a.txt") },
        WalkEntry { kind: EntryKind::File, full_path: "/d/b.log".to_string(), rel_path: rel("b.log") },
    ];
    let including = build_globset(&["*.txt".to_string()]).ok().unwrap();
    let excluding = build_globset(&[]).ok().unwrap();
    let mut files = collect_files(&walked, &including, &excluding);
    assert_eq!(files.len(), 1);
    let only = LoadedFile { entry: files.remove(0), content: text("alpha\n") };
    let out = output_markdown(&[only]);
    assert_eq!(out, "### a.txt\n\n```\nalpha\n```\n");
    assert_eq!(out.matches("### ").count(), 1);
    assert!(out.starts_with("### a.txt\n"));
    assert!(!out.contains("b.log"));
    assert!(!out.contains("---"));
}

#[test]
fn failed_read_changes_only_its_own_section() {
    let read = vec![loaded("a.c", text("A")), loaded("b.c", text("B")), loaded("c.c", text("C"))];
    let failed = vec![
        loaded("a.c", text("A")),
        loaded("b.c", FileContent::Unreadable("denied".to_string())),
        loaded("c.c", text("C")),
    ];
    let whole = output_markdown(&read);
    let broken = output_markdown(&failed);
    let first = "### a.c\n\n```c\nA\n```\n\n---\n\n";
    let last = "### c.c\n\n```c\nC\n```\n";
    assert_eq!(whole, format!("{}### b.c\n\n```c\nB\n```\n\n---\n\n{}", first, last));
    assert_eq!(
        broken,
        format!("{}### b.c\n\n```c\n[Error reading file: denied]\n```\n\n---\n\n{}", first, last)
    );
    assert_eq!(broken.matches("```").count(), 6);
}
