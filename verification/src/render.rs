//! The Markdown document: one section per file, each a heading and a fenced
//! code block, with a rule between sections.

use vstd::prelude::*;
use vstd::string::StringExecFns;
use crate::collect::{FileEntry, FileEntryView};
use crate::hint::{get_language_hint, language_hint};
use crate::path::{joined, RelPath};

verus! {

/// What reading a file gave.
#[derive(Debug, PartialEq, Eq)]
pub enum FileContent {
    /// The text of the file.
    Text(String),
    /// The file could not be read; the string says why.
    Unreadable(String),
}

/// What reading a file gave, as text.
pub enum FileContentView {
    Text(Seq<char>),
    Unreadable(Seq<char>),
}

impl View for FileContent {
    type V = FileContentView;

    open spec fn view(&self) -> FileContentView {
        match *self {
            FileContent::Text(text) => FileContentView::Text(text@),
            FileContent::Unreadable(reason) => FileContentView::Unreadable(reason@),
        }
    }
}

/// A selected file together with what reading it gave.
#[derive(Debug)]
pub struct LoadedFile {
    pub entry: FileEntry,
    pub content: FileContent,
}

/// A loaded file as texts.
pub struct LoadedFileView {
    pub entry: FileEntryView,
    pub content: FileContentView,
}

impl View for LoadedFile {
    type V = LoadedFileView;

    open spec fn view(&self) -> LoadedFileView {
        LoadedFileView { entry: self.entry@, content: self.content@ }
    }
}

/// The views of a list of loaded files.
pub open spec fn loaded_views(files: Seq<LoadedFile>) -> Seq<LoadedFileView> {
    files.map_values(|f: LoadedFile| f@)
}

/// Whether the last character of `text` is a line break.
pub open spec fn ends_with_newline(text: Seq<char>) -> bool {
    text.len() > 0 && text.last() == '\n'
}

/// What stands between the fences of a code block: the text of the file,
/// with a line break added where it ends without one, or a line that says
/// that the file could not be read.
pub open spec fn block_body(content: FileContentView) -> Seq<char> {
    match content {
        FileContentView::Text(text) => if ends_with_newline(text) {
            text
        } else {
            text + "\n"@
        },
        FileContentView::Unreadable(reason) => "[Error reading file: "@ + reason + "]\n"@,
    }
}

/// The lines that open a section: the heading, a blank line, and the opening
/// fence with the language tag of the file.
pub open spec fn section_head(rel_text: Seq<char>) -> Seq<char> {
    "### "@ + rel_text + "\n\n```"@ + language_hint(rel_text) + "\n"@
}

/// The section of one file. Every section but the last ends with a blank
/// line, a rule and another blank line.
pub open spec fn section(rel_text: Seq<char>, content: FileContentView, last: bool) -> Seq<char> {
    section_head(rel_text) + block_body(content) + "```\n"@ + if last {
        Seq::empty()
    } else {
        "\n---\n\n"@
    }
}

/// The sections of a document: one for each file, in the order of the
/// files, the last of them without a rule after it.
pub open spec fn sections(files: Seq<LoadedFileView>) -> Seq<Seq<char>> {
    Seq::new(
        files.len(),
        |i: int| section(joined(files[i].entry.rel_path), files[i].content, i == files.len() - 1),
    )
}

/// The whole document: its sections, one after the other.
pub open spec fn document(files: Seq<LoadedFileView>) -> Seq<char> {
    sections(files).flatten()
}

/// The line that reports a file that could not be read.
pub open spec fn read_error_text(rel_text: Seq<char>, reason: Seq<char>) -> Seq<char> {
    "Error reading "@ + rel_text + ": "@ + reason
}

fn has_final_newline(text: &str) -> (r: bool)
    ensures
        r == ends_with_newline(text@),
{
    let mut last: Option<char> = None;
    for c in it: text.chars()
        invariant
            it.seq() == text@,
            last == if it.index() == 0 {
                None::<char>
            } else {
                Some(text@[it.index() - 1])
            },
    {
        last = Some(c);
    }
    match last {
        Some(c) => c == '\n',
        None => false,
    }
}

/// Renders the section of one file. `last` says whether it is the last of
/// the document.
pub fn render_section(rel_path: &RelPath, content: &FileContent, last: bool) -> (out: String)
    ensures
        out@ == section(joined(rel_path@), content@, last),
{
    let rel_text = rel_path.to_text();
    let mut out = String::from_str("### ");
    out.append(rel_text.as_str());
    out.append("\n\n```");
    out.append(get_language_hint(rel_text.as_str()));
    out.append("\n");
    match content {
        FileContent::Text(text) => {
            out.append(text.as_str());
            if !has_final_newline(text.as_str()) {
                out.append("\n");
            }
        },
        FileContent::Unreadable(reason) => {
            out.append("[Error reading file: ");
            out.append(reason.as_str());
            out.append("]\n");
        },
    }
    out.append("```\n");
    if !last {
        out.append("\n---\n\n");
    }
    out
}

/// Renders the document of the files given: the section of each, in their
/// order.
pub fn output_markdown(files: &[LoadedFile]) -> (out: String)
    ensures
        out@ == document(loaded_views(files@)),
{
    let ghost parts = sections(loaded_views(files@));
    let mut out = String::new();
    let mut i: usize = 0;
    while i < files.len()
        invariant
            i <= files.len(),
            parts == sections(loaded_views(files@)),
            out@ == parts.take(i as int).flatten(),
        decreases files.len() - i,
    {
        let file = &files[i];
        let part = render_section(&file.entry.rel_path, &file.content, i + 1 == files.len());
        out.append(part.as_str());
        proof {
            assert(parts.take(i + 1) == parts.take(i as int).push(parts[i as int]));
            parts.take(i as int).lemma_flatten_push(parts[i as int]);
        }
        i = i + 1;
    }
    assert(parts.take(i as int) == parts);
    out
}

/// The line that reports, on the error stream, a file that could not be
/// read.
pub fn read_error_notice(rel_path: &RelPath, reason: &str) -> (out: String)
    ensures
        out@ == read_error_text(joined(rel_path@), reason@),
{
    let rel_text = rel_path.to_text();
    let mut out = String::from_str("Error reading ");
    out.append(rel_text.as_str());
    out.append(": ");
    out.append(reason);
    out
}

/// The closing fence always stands on a line of its own: what precedes it
/// ends with a line break, whatever the file holds and whether or not it
/// could be read.
pub proof fn lemma_block_body_ends_with_newline(content: FileContentView)
    ensures
        ends_with_newline(block_body(content)),
{
    reveal_strlit("\n");
    reveal_strlit("]\n");
}

/// A text gets exactly one line break where it has none at its end, and none
/// where it has one.
pub proof fn lemma_text_body_gets_one_newline(text: Seq<char>)
    ensures
        block_body(FileContentView::Text(text)) == if ends_with_newline(text) {
            text
        } else {
            text.push('\n')
        },
{
    reveal_strlit("\n");
}

/// A file that could not be read changes its own section and no other: in
/// its place stands a section with the placeholder between the fences, and
/// the sections of all other files, with their rules, are what they would be
/// had it been read.
pub proof fn lemma_unreadable_file_changes_only_its_section(
    files: Seq<LoadedFileView>,
    k: int,
    reason: Seq<char>,
)
    requires
        0 <= k < files.len(),
    ensures
        sections(
            files.update(
                k,
                LoadedFileView { entry: files[k].entry, content: FileContentView::Unreadable(reason) },
            ),
        ) == sections(files).update(
            k,
            section_head(joined(files[k].entry.rel_path)) + ("[Error reading file: "@ + reason
                + "]\n"@) + "```\n"@ + if k == files.len() - 1 {
                Seq::<char>::empty()
            } else {
                "\n---\n\n"@
            },
        ),
{
}

} // verus!
