//! Fence language tags, looked up by file extension.

use vstd::prelude::*;
use crate::text::{fold_case, fold_case_all, last_index_of, last_position, lemma_last_index_of, tail_spells, to_chars};

verus! {

/// The bare name of the file that `path` leads to: what follows its last `/`.
pub open spec fn file_name(path: Seq<char>) -> Seq<char> {
    path.skip(last_index_of(path, '/') + 1)
}

/// The extension of the file that `path` leads to: what follows the last `.`
/// of its bare name. A name without a `.`, or whose only `.` is its first
/// character, has none.
pub open spec fn extension(path: Seq<char>) -> Option<Seq<char>> {
    let name = file_name(path);
    let dot = last_index_of(name, '.');
    if dot > 0 {
        Some(name.skip(dot + 1))
    } else {
        None
    }
}

/// The language tag of a lower-case extension; empty for one the table does
/// not know.
pub open spec fn hint_for_extension(ext: Seq<char>) -> Seq<char> {
    if ext == "py"@ {
        "python"@
    } else if ext == "js"@ {
        "javascript"@
    } else if ext == "ts"@ {
        "typescript"@
    } else if ext == "jsx"@ {
        "jsx"@
    } else if ext == "tsx"@ {
        "tsx"@
    } else if ext == "java"@ {
        "java"@
    } else if ext == "c"@ {
        "c"@
    } else if ext == "cpp"@ {
        "cpp"@
    } else if ext == "cs"@ {
        "csharp"@
    } else if ext == "php"@ {
        "php"@
    } else if ext == "rb"@ {
        "ruby"@
    } else if ext == "go"@ {
        "go"@
    } else if ext == "rs"@ {
        "rust"@
    } else if ext == "kt"@ {
        "kotlin"@
    } else if ext == "swift"@ {
        "swift"@
    } else if ext == "m"@ {
        "objectivec"@
    } else if ext == "scala"@ {
        "scala"@
    } else if ext == "sh"@ {
        "bash"@
    } else if ext == "bash"@ {
        "bash"@
    } else if ext == "zsh"@ {
        "zsh"@
    } else if ext == "fish"@ {
        "fish"@
    } else if ext == "ps1"@ {
        "powershell"@
    } else if ext == "r"@ {
        "r"@
    } else if ext == "sql"@ {
        "sql"@
    } else if ext == "html"@ || ext == "htm"@ {
        "html"@
    } else if ext == "xml"@ {
        "xml"@
    } else if ext == "css"@ {
        "css"@
    } else if ext == "scss"@ {
        "scss"@
    } else if ext == "sass"@ {
        "sass"@
    } else if ext == "less"@ {
        "less"@
    } else if ext == "json"@ {
        "json"@
    } else if ext == "yaml"@ || ext == "yml"@ {
        "yaml"@
    } else if ext == "toml"@ {
        "toml"@
    } else if ext == "ini"@ || ext == "cfg"@ {
        "ini"@
    } else if ext == "conf"@ {
        "conf"@
    } else if ext == "md"@ || ext == "markdown"@ {
        "markdown"@
    } else if ext == "rst"@ {
        "rst"@
    } else if ext == "tex"@ {
        "latex"@
    } else {
        ""@
    }
}

/// The language tag of the file that `path` leads to; empty when the file has
/// no extension or the table does not know it.
pub open spec fn language_hint(path: Seq<char>) -> Seq<char> {
    match extension(path) {
        Some(ext) => hint_for_extension(fold_case_all(ext)),
        None => ""@,
    }
}

fn lookup(chars: &Vec<char>, from: usize) -> (hint: &'static str)
    requires
        from <= chars.len(),
    ensures
        hint@ == hint_for_extension(fold_case_all(chars@.skip(from as int))),
{
    if tail_spells(chars, from, "py") {
        "python"
    } else if tail_spells(chars, from, "js") {
        "javascript"
    } else if tail_spells(chars, from, "ts") {
        "typescript"
    } else if tail_spells(chars, from, "jsx") {
        "jsx"
    } else if tail_spells(chars, from, "tsx") {
        "tsx"
    } else if tail_spells(chars, from, "java") {
        "java"
    } else if tail_spells(chars, from, "c") {
        "c"
    } else if tail_spells(chars, from, "cpp") {
        "cpp"
    } else if tail_spells(chars, from, "cs") {
        "csharp"
    } else if tail_spells(chars, from, "php") {
        "php"
    } else if tail_spells(chars, from, "rb") {
        "ruby"
    } else if tail_spells(chars, from, "go") {
        "go"
    } else if tail_spells(chars, from, "rs") {
        "rust"
    } else if tail_spells(chars, from, "kt") {
        "kotlin"
    } else if tail_spells(chars, from, "swift") {
        "swift"
    } else if tail_spells(chars, from, "m") {
        "objectivec"
    } else if tail_spells(chars, from, "scala") {
        "scala"
    } else if tail_spells(chars, from, "sh") {
        "bash"
    } else if tail_spells(chars, from, "bash") {
        "bash"
    } else if tail_spells(chars, from, "zsh") {
        "zsh"
    } else if tail_spells(chars, from, "fish") {
        "fish"
    } else if tail_spells(chars, from, "ps1") {
        "powershell"
    } else if tail_spells(chars, from, "r") {
        "r"
    } else if tail_spells(chars, from, "sql") {
        "sql"
    } else if tail_spells(chars, from, "html") || tail_spells(chars, from, "htm") {
        "html"
    } else if tail_spells(chars, from, "xml") {
        "xml"
    } else if tail_spells(chars, from, "css") {
        "css"
    } else if tail_spells(chars, from, "scss") {
        "scss"
    } else if tail_spells(chars, from, "sass") {
        "sass"
    } else if tail_spells(chars, from, "less") {
        "less"
    } else if tail_spells(chars, from, "json") {
        "json"
    } else if tail_spells(chars, from, "yaml") || tail_spells(chars, from, "yml") {
        "yaml"
    } else if tail_spells(chars, from, "toml") {
        "toml"
    } else if tail_spells(chars, from, "ini") || tail_spells(chars, from, "cfg") {
        "ini"
    } else if tail_spells(chars, from, "conf") {
        "conf"
    } else if tail_spells(chars, from, "md") || tail_spells(chars, from, "markdown") {
        "markdown"
    } else if tail_spells(chars, from, "rst") {
        "rst"
    } else if tail_spells(chars, from, "tex") {
        "latex"
    } else {
        ""
    }
}

/// Maps a file path to the language tag of its Markdown fence.
pub fn get_language_hint(path: &str) -> (hint: &'static str)
    ensures
        hint@ == language_hint(path@),
{
    let chars = to_chars(path);
    let name_start: usize = match last_position(&chars, 0, '/') {
        Some(slash) => slash + 1,
        None => 0,
    };
    assert(chars@.skip(0) == chars@);
    match last_position(&chars, name_start, '.') {
        Some(dot) => {
            if dot > name_start {
                assert(chars@.skip(name_start as int).skip(dot - name_start + 1) == chars@.skip(
                    dot + 1,
                ));
                lookup(&chars, dot + 1)
            } else {
                ""
            }
        },
        None => "",
    }
}

proof fn lemma_fold_keeps_marks(s: Seq<char>, mark: char)
    requires
        mark == '/' || mark == '.',
    ensures
        last_index_of(fold_case_all(s), mark) == last_index_of(s, mark),
    decreases s.len(),
{
    if s.len() > 0 {
        assert(fold_case_all(s).drop_last() == fold_case_all(s.drop_last()));
        lemma_fold_keeps_marks(s.drop_last(), mark);
    }
}

proof fn lemma_hint_of_folded(path: Seq<char>)
    ensures
        language_hint(fold_case_all(path)) == language_hint(path),
{
    let folded = fold_case_all(path);
    lemma_fold_keeps_marks(path, '/');
    lemma_last_index_of(path, '/');
    let start = last_index_of(path, '/') + 1;
    assert(file_name(folded) == fold_case_all(file_name(path)));
    let name = file_name(path);
    lemma_fold_keeps_marks(name, '.');
    lemma_last_index_of(name, '.');
    let dot = last_index_of(name, '.');
    if dot > 0 {
        let ext = name.skip(dot + 1);
        assert(fold_case_all(name).skip(dot + 1) == fold_case_all(ext));
        assert(fold_case_all(fold_case_all(ext)) == fold_case_all(ext));
    }
}

/// The hint does not depend on the case of the letters in a path: two paths
/// that fold to the same lower-case text get the same language tag.
pub proof fn lemma_hint_ignores_case(path: Seq<char>, other: Seq<char>)
    requires
        fold_case_all(path) == fold_case_all(other),
    ensures
        language_hint(path) == language_hint(other),
{
    lemma_hint_of_folded(path);
    lemma_hint_of_folded(other);
}

} // verus!
