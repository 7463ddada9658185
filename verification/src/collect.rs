//! Choosing the files of a directory walk: which directories are pruned,
//! which files are selected, and the order in which they are listed.

use vstd::prelude::*;
use vstd::seq_lib::{group_to_multiset_ensures, to_multiset_len};
use vstd::string::StringExecFns;
use crate::path::{
    joined, lemma_path_lt_asymmetric, lemma_path_lt_irreflexive, lemma_path_lt_total, path_lt,
    RelPath,
};
use crate::pattern::{matches_any, PatternSet};
use crate::sort::sort_files;

verus! {

/// What kind of thing a walk came upon.
#[derive(Clone, Copy, Debug, PartialEq, Eq, Structural)]
pub enum EntryKind {
    /// A directory (not a link to one).
    Directory,
    /// A regular file.
    File,
    /// Anything else, such as a symbolic link.
    Other,
}

/// One entry of a directory walk.
#[derive(Debug)]
pub struct WalkEntry {
    pub kind: EntryKind,
    /// The path by which the entry can be opened.
    pub full_path: String,
    /// The same path, relative to the base directory of the walk.
    pub rel_path: RelPath,
}

/// What the rule reads of a walk entry.
pub struct WalkEntryView {
    pub kind: EntryKind,
    pub full_path: Seq<char>,
    pub rel_path: Seq<Seq<char>>,
}

impl View for WalkEntry {
    type V = WalkEntryView;

    open spec fn view(&self) -> WalkEntryView {
        WalkEntryView { kind: self.kind, full_path: self.full_path@, rel_path: self.rel_path@ }
    }
}

/// A file selected for output.
#[derive(Debug)]
pub struct FileEntry {
    /// The path by which the file can be opened.
    pub full_path: String,
    /// The same path, relative to the base directory.
    pub rel_path: RelPath,
}

/// A selected file as a pair of texts: its full path and the components of
/// its relative path.
pub struct FileEntryView {
    pub full_path: Seq<char>,
    pub rel_path: Seq<Seq<char>>,
}

impl View for FileEntry {
    type V = FileEntryView;

    open spec fn view(&self) -> FileEntryView {
        FileEntryView { full_path: self.full_path@, rel_path: self.rel_path@ }
    }
}

impl Clone for FileEntry {
    fn clone(&self) -> (copy: FileEntry)
        ensures
            copy@ == self@,
    {
        FileEntry { full_path: self.full_path.clone(), rel_path: self.rel_path.clone() }
    }
}

/// The views of a list of walk entries.
pub open spec fn walk_views(entries: Seq<WalkEntry>) -> Seq<WalkEntryView> {
    entries.map_values(|e: WalkEntry| e@)
}

/// The views of a list of file entries.
pub open spec fn file_views(files: Seq<FileEntry>) -> Seq<FileEntryView> {
    files.map_values(|f: FileEntry| f@)
}

/// A name that starts with a dot.
pub open spec fn is_hidden(name: Seq<char>) -> bool {
    name.len() > 0 && name[0] == '.'
}

/// The pruning rule on a directory's bare name and relative path: the name is
/// hidden, or an exclude pattern matches the name, the relative path, or the
/// relative path written with a leading `./`.
pub open spec fn prune_rule(excluding: Seq<Seq<char>>, name: Seq<char>, rel_text: Seq<char>) -> bool {
    ||| is_hidden(name)
    ||| matches_any(excluding, name)
    ||| matches_any(excluding, rel_text)
    ||| matches_any(excluding, "./"@ + rel_text)
}

/// Whether the directory at `rel` is pruned. The base directory, which has no
/// component, never is.
pub open spec fn prunes(excluding: Seq<Seq<char>>, rel: Seq<Seq<char>>) -> bool {
    rel.len() > 0 && prune_rule(excluding, rel.last(), joined(rel))
}

/// Whether a directory between the base and the entry at `rel` is pruned.
pub open spec fn below_pruned(excluding: Seq<Seq<char>>, rel: Seq<Seq<char>>) -> bool {
    exists|k: int| 0 < k < rel.len() && prunes(excluding, #[trigger] rel.take(k))
}

/// Whether an entry of the walk is selected for output: a regular file below
/// the base whose name matches an include pattern, whose name and relative
/// path match no exclude pattern, and which lies in no pruned directory.
pub open spec fn selects(
    including: Seq<Seq<char>>,
    excluding: Seq<Seq<char>>,
    entry: WalkEntryView,
) -> bool {
    &&& entry.kind == EntryKind::File
    &&& entry.rel_path.len() > 0
    &&& matches_any(including, entry.rel_path.last())
    &&& !matches_any(excluding, entry.rel_path.last())
    &&& !matches_any(excluding, joined(entry.rel_path))
    &&& !below_pruned(excluding, entry.rel_path)
}

/// The file entry made of a walk entry.
pub open spec fn as_file(entry: WalkEntryView) -> FileEntryView {
    FileEntryView { full_path: entry.full_path, rel_path: entry.rel_path }
}

/// The selected entries of a walk, in the order of the walk.
pub open spec fn selection(
    including: Seq<Seq<char>>,
    excluding: Seq<Seq<char>>,
    entries: Seq<WalkEntryView>,
) -> Seq<FileEntryView>
    decreases entries.len(),
{
    if entries.len() == 0 {
        Seq::empty()
    } else {
        let before = selection(including, excluding, entries.drop_last());
        if selects(including, excluding, entries.last()) {
            before.push(as_file(entries.last()))
        } else {
            before
        }
    }
}

/// No entry comes after one that it should precede.
pub open spec fn sorted_by_path(files: Seq<FileEntryView>) -> bool {
    forall|i: int, j: int|
        #![trigger files[i], files[j]]
        0 <= i < j < files.len() ==> !path_lt(files[j].rel_path, files[i].rel_path)
}

/// Each entry comes before all that follow it.
pub open spec fn strictly_sorted_by_path(files: Seq<FileEntryView>) -> bool {
    forall|i: int, j: int|
        #![trigger files[i], files[j]]
        0 <= i < j < files.len() ==> path_lt(files[i].rel_path, files[j].rel_path)
}

/// No relative path occurs twice among the entries of a walk.
pub open spec fn distinct_paths(entries: Seq<WalkEntryView>) -> bool {
    forall|i: int, j: int|
        #![trigger entries[i], entries[j]]
        0 <= i < j < entries.len() ==> entries[i].rel_path != entries[j].rel_path
}

fn starts_with_dot(name: &str) -> (r: bool)
    ensures
        r == is_hidden(name@),
{
    let mut rest = name.chars();
    match rest.next() {
        Some(first) => first == '.',
        None => false,
    }
}

fn prune_check(excluding: &PatternSet, name: &str, rel_text: &str) -> (r: bool)
    ensures
        r == prune_rule(excluding@, name@, rel_text@),
{
    if starts_with_dot(name) {
        return true;
    }
    if excluding.is_match(name) || excluding.is_match(rel_text) {
        return true;
    }
    let dotted = String::from_str("./").concat(rel_text);
    excluding.is_match(dotted.as_str())
}

/// Decides whether a walk leaves out the directory at `rel_path`, and with it
/// all that lies beneath.
pub fn should_prune_dir(rel_path: &RelPath, excluding: &PatternSet) -> (r: bool)
    ensures
        r == prunes(excluding@, rel_path@),
{
    let n = rel_path.components.len();
    if n == 0 {
        return false;
    }
    let text = rel_path.to_text();
    prune_check(excluding, rel_path.components[n - 1].as_str(), text.as_str())
}

/// Decides whether a walk goes on with an entry: every entry but a pruned
/// directory.
pub fn should_visit(kind: EntryKind, rel_path: &RelPath, excluding: &PatternSet) -> (r: bool)
    ensures
        r == !(kind == EntryKind::Directory && prunes(excluding@, rel_path@)),
{
    match kind {
        EntryKind::Directory => !should_prune_dir(rel_path, excluding),
        _ => true,
    }
}

fn has_pruned_ancestor(rel_path: &RelPath, excluding: &PatternSet) -> (r: bool)
    ensures
        r == below_pruned(excluding@, rel_path@),
{
    let n = rel_path.components.len();
    let mut prefix = String::new();
    let mut k: usize = 1;
    while k < n
        invariant
            1 <= k,
            n == rel_path.components.len(),
            k <= n || n == 0,
            prefix@ == joined(rel_path@.take(k - 1)),
            forall|m: int| 0 < m < k ==> !prunes(excluding@, #[trigger] rel_path@.take(m)),
        decreases n - k,
    {
        if k > 1 {
            prefix.append("/");
        }
        prefix.append(rel_path.components[k - 1].as_str());
        proof {
            let upto = rel_path@.take(k as int);
            assert(upto.drop_last() == rel_path@.take(k - 1));
        }
        if prune_check(excluding, rel_path.components[k - 1].as_str(), prefix.as_str()) {
            return true;
        }
        k = k + 1;
    }
    false
}

/// Decides whether an entry of the walk is selected for output.
pub fn is_selected(entry: &WalkEntry, including: &PatternSet, excluding: &PatternSet) -> (r: bool)
    ensures
        r == selects(including@, excluding@, entry@),
{
    match entry.kind {
        EntryKind::File => {},
        _ => {
            return false;
        },
    }
    let n = entry.rel_path.components.len();
    if n == 0 {
        return false;
    }
    let name = entry.rel_path.components[n - 1].as_str();
    if !including.is_match(name) || excluding.is_match(name) {
        return false;
    }
    let text = entry.rel_path.to_text();
    if excluding.is_match(text.as_str()) {
        return false;
    }
    !has_pruned_ancestor(&entry.rel_path, excluding)
}

/// Collects the files to output from the entries of a walk: the selected
/// entries, ordered by relative path.
pub fn collect_files(entries: &[WalkEntry], including: &PatternSet, excluding: &PatternSet) -> (files:
    Vec<FileEntry>)
    ensures
        sorted_by_path(file_views(files@)),
        file_views(files@).to_multiset() == selection(
            including@,
            excluding@,
            walk_views(entries@),
        ).to_multiset(),
        distinct_paths(walk_views(entries@)) ==> strictly_sorted_by_path(file_views(files@)),
{
    let mut picked: Vec<FileEntry> = Vec::new();
    let mut i: usize = 0;
    while i < entries.len()
        invariant
            i <= entries.len(),
            file_views(picked@) == selection(
                including@,
                excluding@,
                walk_views(entries@).take(i as int),
            ),
        decreases entries.len() - i,
    {
        let entry = &entries[i];
        proof {
            let upto = walk_views(entries@).take(i + 1);
            assert(upto.drop_last() == walk_views(entries@).take(i as int));
        }
        if is_selected(entry, including, excluding) {
            let file = FileEntry {
                full_path: entry.full_path.clone(),
                rel_path: entry.rel_path.clone(),
            };
            picked.push(file);
        }
        i = i + 1;
    }
    assert(walk_views(entries@).take(i as int) == walk_views(entries@));
    let files = sort_files(&picked);
    proof {
        if distinct_paths(walk_views(entries@)) {
            lemma_distinct_paths_sort_strictly(
                file_views(files@),
                including@,
                excluding@,
                walk_views(entries@),
            );
        }
    }
    files
}

/// Every member of a selection is made of a selected entry of the walk.
pub proof fn lemma_selection_member(
    including: Seq<Seq<char>>,
    excluding: Seq<Seq<char>>,
    entries: Seq<WalkEntryView>,
    i: int,
)
    requires
        0 <= i < selection(including, excluding, entries).len(),
    ensures
        exists|j: int|
            0 <= j < entries.len() && selects(including, excluding, #[trigger] entries[j])
                && selection(including, excluding, entries)[i] == as_file(entries[j]),
    decreases entries.len(),
{
    let front = entries.drop_last();
    let before = selection(including, excluding, front);
    if i < before.len() {
        lemma_selection_member(including, excluding, front, i);
        let j = choose|j: int|
            0 <= j < front.len() && selects(including, excluding, #[trigger] front[j]) && before[i]
                == as_file(front[j]);
    }
}

/// Every selected entry of the walk has its file in the selection.
pub proof fn lemma_selected_is_member(
    including: Seq<Seq<char>>,
    excluding: Seq<Seq<char>>,
    entries: Seq<WalkEntryView>,
    j: int,
)
    requires
        0 <= j < entries.len(),
        selects(including, excluding, entries[j]),
    ensures
        selection(including, excluding, entries).contains(as_file(entries[j])),
    decreases entries.len(),
{
    let front = entries.drop_last();
    let before = selection(including, excluding, front);
    let all = selection(including, excluding, entries);
    if j < front.len() {
        lemma_selected_is_member(including, excluding, front, j);
        let at = choose|at: int| 0 <= at < before.len() && before[at] == as_file(entries[j]);
        assert(all[at] == before[at]);
    } else {
        assert(all[before.len() as int] == as_file(entries[j]));
    }
}

/// A file is listed only if the walk came upon it and the rule selects it.
pub proof fn lemma_listed_file_is_selected(
    files: Seq<FileEntryView>,
    including: Seq<Seq<char>>,
    excluding: Seq<Seq<char>>,
    entries: Seq<WalkEntryView>,
    i: int,
)
    requires
        files.to_multiset() == selection(including, excluding, entries).to_multiset(),
        0 <= i < files.len(),
    ensures
        exists|j: int|
            0 <= j < entries.len() && selects(including, excluding, #[trigger] entries[j])
                && files[i] == as_file(entries[j]),
{
    broadcast use group_to_multiset_ensures;

    let chosen = selection(including, excluding, entries);
    assert(files.to_multiset().count(files[i]) > 0);
    let at = choose|at: int| 0 <= at < chosen.len() && chosen[at] == files[i];
    lemma_selection_member(including, excluding, entries, at);
}

/// A directory whose name starts with a dot is never descended into: no
/// listed file has such a directory between the base and itself, whatever the
/// patterns are.
pub proof fn lemma_nothing_listed_below_hidden_directory(
    files: Seq<FileEntryView>,
    including: Seq<Seq<char>>,
    excluding: Seq<Seq<char>>,
    entries: Seq<WalkEntryView>,
    i: int,
    k: int,
)
    requires
        files.to_multiset() == selection(including, excluding, entries).to_multiset(),
        0 <= i < files.len(),
        0 < k < files[i].rel_path.len(),
    ensures
        !is_hidden(files[i].rel_path[k - 1]),
{
    lemma_listed_file_is_selected(files, including, excluding, entries, i);
    let rel = files[i].rel_path;
    assert(rel.take(k).last() == rel[k - 1]);
}

/// An exclude pattern that matches a directory prevents every file beneath it
/// from being listed: no exclude pattern matches the name or the relative
/// path, with or without a leading `./`, of a directory between the base and
/// a listed file.
pub proof fn lemma_nothing_listed_below_excluded_directory(
    files: Seq<FileEntryView>,
    including: Seq<Seq<char>>,
    excluding: Seq<Seq<char>>,
    entries: Seq<WalkEntryView>,
    i: int,
    k: int,
)
    requires
        files.to_multiset() == selection(including, excluding, entries).to_multiset(),
        0 <= i < files.len(),
        0 < k < files[i].rel_path.len(),
    ensures
        !matches_any(excluding, files[i].rel_path[k - 1]),
        !matches_any(excluding, joined(files[i].rel_path.take(k))),
        !matches_any(excluding, "./"@ + joined(files[i].rel_path.take(k))),
{
    lemma_listed_file_is_selected(files, including, excluding, entries, i);
    let rel = files[i].rel_path;
    assert(rel.take(k).last() == rel[k - 1]);
}

proof fn lemma_selection_distinct(
    including: Seq<Seq<char>>,
    excluding: Seq<Seq<char>>,
    entries: Seq<WalkEntryView>,
)
    requires
        distinct_paths(entries),
    ensures
        forall|a: int, b: int|
            #![trigger selection(including, excluding, entries)[a], selection(including, excluding, entries)[b]]
            0 <= a < b < selection(including, excluding, entries).len() ==> selection(
                including,
                excluding,
                entries,
            )[a].rel_path != selection(including, excluding, entries)[b].rel_path,
    decreases entries.len(),
{
    let all = selection(including, excluding, entries);
    if entries.len() > 0 {
        let front = entries.drop_last();
        let before = selection(including, excluding, front);
        assert(distinct_paths(front)) by {
            assert forall|i: int, j: int| 0 <= i < j < front.len() implies front[i].rel_path
                != front[j].rel_path by {}
        }
        lemma_selection_distinct(including, excluding, front);
        assert forall|a: int, b: int| 0 <= a < b < all.len() implies all[a].rel_path
            != all[b].rel_path by {
            if b >= before.len() {
                lemma_selection_member(including, excluding, front, a);
                let j = choose|j: int|
                    0 <= j < front.len() && selects(including, excluding, #[trigger] front[j])
                        && before[a] == as_file(front[j]);
            }
        }
    }
}

/// Where no relative path occurs twice in the walk, a sorted listing of its
/// selection is strictly sorted.
pub proof fn lemma_distinct_paths_sort_strictly(
    files: Seq<FileEntryView>,
    including: Seq<Seq<char>>,
    excluding: Seq<Seq<char>>,
    entries: Seq<WalkEntryView>,
)
    requires
        sorted_by_path(files),
        files.to_multiset() == selection(including, excluding, entries).to_multiset(),
        distinct_paths(entries),
    ensures
        strictly_sorted_by_path(files),
{
    broadcast use group_to_multiset_ensures;

    let chosen = selection(including, excluding, entries);
    lemma_selection_distinct(including, excluding, entries);
    assert(chosen.no_duplicates()) by {
        assert forall|a: int, b: int| 0 <= a < chosen.len() && 0 <= b < chosen.len() && a
            != b implies chosen[a] != chosen[b] by {}
    }
    chosen.lemma_multiset_has_no_duplicates();
    files.lemma_multiset_has_no_duplicates_conv();
    assert forall|i: int, j: int| 0 <= i < j < files.len() implies path_lt(
        files[i].rel_path,
        files[j].rel_path,
    ) by {
        assert(files.to_multiset().count(files[i]) > 0);
        assert(files.to_multiset().count(files[j]) > 0);
        let a = choose|a: int| 0 <= a < chosen.len() && chosen[a] == files[i];
        let b = choose|b: int| 0 <= b < chosen.len() && chosen[b] == files[j];
        lemma_path_lt_total(files[i].rel_path, files[j].rel_path);
    }
}

/// The same files have at most one strictly sorted listing: with no relative
/// path occurring twice, what is listed decides the order of the listing.
pub proof fn lemma_strictly_sorted_listing_is_unique(
    one: Seq<FileEntryView>,
    other: Seq<FileEntryView>,
)
    requires
        strictly_sorted_by_path(one),
        strictly_sorted_by_path(other),
        one.to_multiset() == other.to_multiset(),
    ensures
        one == other,
    decreases one.len(),
{
    broadcast use group_to_multiset_ensures;

    assert(one.len() == other.len()) by {
        to_multiset_len(one);
        to_multiset_len(other);
    }
    if one.len() > 0 {
        let first = one[0];
        assert(one.to_multiset().count(first) > 0);
        let j = choose|j: int| 0 <= j < other.len() && other[j] == first;
        if j > 0 {
            let least = other[0];
            assert(other.to_multiset().count(least) > 0);
            let i = choose|i: int| 0 <= i < one.len() && one[i] == least;
            if i == 0 {
                lemma_path_lt_irreflexive(first.rel_path);
            } else {
                lemma_path_lt_asymmetric(first.rel_path, least.rel_path);
            }
        }
        let rest_one = one.remove(0);
        let rest_other = other.remove(0);
        assert(strictly_sorted_by_path(rest_one)) by {
            assert forall|a: int, b: int| 0 <= a < b < rest_one.len() implies path_lt(
                rest_one[a].rel_path,
                rest_one[b].rel_path,
            ) by {}
        }
        assert(strictly_sorted_by_path(rest_other)) by {
            assert forall|a: int, b: int| 0 <= a < b < rest_other.len() implies path_lt(
                rest_other[a].rel_path,
                rest_other[b].rel_path,
            ) by {}
        }
        lemma_strictly_sorted_listing_is_unique(rest_one, rest_other);
        assert(one =~= seq![first] + rest_one);
    }
}

} // verus!
