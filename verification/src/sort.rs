//! Ordering file entries by relative path.

use vstd::prelude::*;
use vstd::seq_lib::{lemma_multiset_commutative, to_multiset_build};
use crate::collect::{file_views, sorted_by_path, FileEntry, FileEntryView};
use crate::path::{
    lemma_path_lt_asymmetric, lemma_path_lt_irreflexive, lemma_path_lt_total,
    lemma_path_lt_transitive, path_lt,
};

verus! {

/// None of `pending[from..]` should precede an entry of `done`.
spec fn none_precedes(pending: Seq<FileEntryView>, from: int, done: Seq<FileEntryView>) -> bool {
    forall|k: int, m: int|
        #![trigger done[k], pending[m]]
        0 <= k < done.len() && from <= m < pending.len() ==> !path_lt(
            pending[m].rel_path,
            done[k].rel_path,
        )
}

/// If `b` does not come before `a`, nor `c` before `b`, then `c` does not come
/// before `a`.
proof fn lemma_not_before_transitive(a: Seq<Seq<char>>, b: Seq<Seq<char>>, c: Seq<Seq<char>>)
    requires
        !path_lt(b, a),
        !path_lt(c, b),
    ensures
        !path_lt(c, a),
{
    lemma_path_lt_total(a, b);
    lemma_path_lt_total(b, c);
    if path_lt(c, a) && a != b && b != c {
        lemma_path_lt_transitive(a, b, c);
        lemma_path_lt_asymmetric(a, c);
    }
}

/// A sorted listing stays sorted when the next of the pending entries is
/// moved to its end.
proof fn lemma_push_keeps_sorted(pending: Seq<FileEntryView>, from: int, done: Seq<FileEntryView>)
    requires
        0 <= from < pending.len(),
        sorted_by_path(done),
        none_precedes(pending, from, done),
    ensures
        sorted_by_path(done.push(pending[from])),
{
    let grown = done.push(pending[from]);
    assert forall|a: int, b: int| 0 <= a < b < grown.len() implies !path_lt(
        grown[b].rel_path,
        grown[a].rel_path,
    ) by {}
}

/// What is still pending on the side from which an entry was taken should
/// not precede anything done.
proof fn lemma_taken_side(pending: Seq<FileEntryView>, from: int, done: Seq<FileEntryView>)
    requires
        0 <= from < pending.len(),
        sorted_by_path(pending),
        none_precedes(pending, from, done),
    ensures
        none_precedes(pending, from + 1, done.push(pending[from])),
{
    let grown = done.push(pending[from]);
    assert forall|k: int, m: int|
        0 <= k < grown.len() && from + 1 <= m < pending.len() implies !path_lt(
        pending[m].rel_path,
        grown[k].rel_path,
    ) by {}
}

/// Nor should what is pending on the other side, whose next entry does not
/// come before the entry taken.
proof fn lemma_other_side(
    pending: Seq<FileEntryView>,
    from: int,
    done: Seq<FileEntryView>,
    taken: FileEntryView,
)
    requires
        0 <= from <= pending.len(),
        sorted_by_path(pending),
        none_precedes(pending, from, done),
        from < pending.len() ==> !path_lt(pending[from].rel_path, taken.rel_path),
    ensures
        none_precedes(pending, from, done.push(taken)),
{
    let grown = done.push(taken);
    assert forall|k: int, m: int|
        0 <= k < grown.len() && from <= m < pending.len() implies !path_lt(
        pending[m].rel_path,
        grown[k].rel_path,
    ) by {
        if k == done.len() {
            if m == from {
                lemma_path_lt_irreflexive(pending[m].rel_path);
            }
            lemma_not_before_transitive(
                taken.rel_path,
                pending[from].rel_path,
                pending[m].rel_path,
            );
        }
    }
}

fn merge(left: &Vec<FileEntry>, right: &Vec<FileEntry>) -> (out: Vec<FileEntry>)
    requires
        sorted_by_path(file_views(left@)),
        sorted_by_path(file_views(right@)),
    ensures
        sorted_by_path(file_views(out@)),
        file_views(out@).to_multiset() == file_views(left@).to_multiset().add(
            file_views(right@).to_multiset(),
        ),
{
    let ghost ls = file_views(left@);
    let ghost rs = file_views(right@);
    let mut out: Vec<FileEntry> = Vec::new();
    let mut i: usize = 0;
    let mut j: usize = 0;
    proof {
        let none = Seq::<FileEntryView>::empty();
        assert(ls.take(0) =~= none);
        assert(rs.take(0) =~= none);
        assert(file_views(out@) =~= none);
        lemma_multiset_commutative(none, none);
    }
    while i < left.len() || j < right.len()
        invariant
            ls == file_views(left@),
            rs == file_views(right@),
            sorted_by_path(ls),
            sorted_by_path(rs),
            i <= left.len(),
            j <= right.len(),
            sorted_by_path(file_views(out@)),
            none_precedes(ls, i as int, file_views(out@)),
            none_precedes(rs, j as int, file_views(out@)),
            file_views(out@).to_multiset() == ls.take(i as int).to_multiset().add(
                rs.take(j as int).to_multiset(),
            ),
        decreases left.len() - i + right.len() - j,
    {
        let ghost done = file_views(out@);
        let take_right = if i >= left.len() {
            true
        } else if j >= right.len() {
            false
        } else {
            right[j].rel_path.less_than(&left[i].rel_path)
        };
        if take_right {
            out.push(right[j].clone());
            proof {
                let taken = rs[j as int];
                assert(file_views(out@) == done.push(taken));
                assert(rs.take(j + 1) == rs.take(j as int).push(taken));
                to_multiset_build(done, taken);
                to_multiset_build(rs.take(j as int), taken);
                if i < left.len() {
                    lemma_path_lt_asymmetric(taken.rel_path, ls[i as int].rel_path);
                }
                lemma_push_keeps_sorted(rs, j as int, done);
                lemma_taken_side(rs, j as int, done);
                lemma_other_side(ls, i as int, done, taken);
            }
            j = j + 1;
        } else {
            out.push(left[i].clone());
            proof {
                let taken = ls[i as int];
                assert(file_views(out@) == done.push(taken));
                assert(ls.take(i + 1) == ls.take(i as int).push(taken));
                to_multiset_build(done, taken);
                to_multiset_build(ls.take(i as int), taken);
                lemma_push_keeps_sorted(ls, i as int, done);
                lemma_taken_side(ls, i as int, done);
                lemma_other_side(rs, j as int, done, taken);
            }
            i = i + 1;
        }
    }
    assert(ls.take(i as int) == ls);
    assert(rs.take(j as int) == rs);
    out
}

fn sort_range(files: &Vec<FileEntry>, from: usize, to: usize) -> (out: Vec<FileEntry>)
    requires
        from <= to <= files.len(),
    ensures
        sorted_by_path(file_views(out@)),
        file_views(out@).to_multiset() == file_views(files@).subrange(
            from as int,
            to as int,
        ).to_multiset(),
    decreases to - from,
{
    let ghost all = file_views(files@);
    if to - from == 0 {
        assert(all.subrange(from as int, to as int) =~= Seq::empty());
        let out: Vec<FileEntry> = Vec::new();
        assert(file_views(out@) =~= Seq::empty());
        out
    } else if to - from == 1 {
        let mut out: Vec<FileEntry> = Vec::new();
        out.push(files[from].clone());
        assert(file_views(out@) =~= all.subrange(from as int, to as int));
        out
    } else {
        let mid = from + (to - from) / 2;
        let left = sort_range(files, from, mid);
        let right = sort_range(files, mid, to);
        proof {
            let a = all.subrange(from as int, mid as int);
            let b = all.subrange(mid as int, to as int);
            assert(all.subrange(from as int, to as int) =~= a + b);
            lemma_multiset_commutative(a, b);
        }
        merge(&left, &right)
    }
}

/// Orders file entries by relative path. The result holds the same entries,
/// none before one that it should follow.
pub fn sort_files(files: &Vec<FileEntry>) -> (out: Vec<FileEntry>)
    ensures
        sorted_by_path(file_views(out@)),
        file_views(out@).to_multiset() == file_views(files@).to_multiset(),
{
    assert(file_views(files@).subrange(0, files.len() as int) == file_views(files@));
    sort_range(files, 0, files.len())
}

} // verus!
