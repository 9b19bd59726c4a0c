//! Repository status: how git's per-path flags become the staged, unstaged and
//! untracked lists, and which paths the bulk stage and unstage operations touch.

use vstd::prelude::*;

use crate::order::{is_sorted_unique_order, sorted_unique_order};
use crate::order::string_eq;
use crate::contents::{assemble_chunks, cuts_into, law_chunked_results_reassemble, part_views};
use crate::paths::{is_strict_descendant, strictly_below};
use crate::types::{ChangeKind, FileEntry, RepoStatus};

verus! {

/// The status flags git reports for one path.
#[derive(Debug, Clone, Copy, PartialEq, Eq, Structural)]
pub struct StatusFlags {
    pub index_new: bool,
    pub index_modified: bool,
    pub index_deleted: bool,
    pub index_renamed: bool,
    pub index_typechange: bool,
    pub wt_new: bool,
    pub wt_modified: bool,
    pub wt_deleted: bool,
    pub wt_typechange: bool,
    pub wt_renamed: bool,
}

/// Some flag is set in both.
pub open spec fn flags_intersect(a: StatusFlags, b: StatusFlags) -> bool {
    ||| a.index_new && b.index_new
    ||| a.index_modified && b.index_modified
    ||| a.index_deleted && b.index_deleted
    ||| a.index_renamed && b.index_renamed
    ||| a.index_typechange && b.index_typechange
    ||| a.wt_new && b.wt_new
    ||| a.wt_modified && b.wt_modified
    ||| a.wt_deleted && b.wt_deleted
    ||| a.wt_typechange && b.wt_typechange
    ||| a.wt_renamed && b.wt_renamed
}

/// The index differs from HEAD for the path.
pub open spec fn index_changed(s: StatusFlags) -> bool {
    s.index_new || s.index_modified || s.index_deleted || s.index_renamed || s.index_typechange
}

/// A tracked path differs between the index and the working tree.
pub open spec fn worktree_changed(s: StatusFlags) -> bool {
    s.wt_modified || s.wt_deleted || s.wt_renamed || s.wt_typechange
}

/// The kind shown for a staged change; the first flag that is set decides.
pub open spec fn staged_kind(s: StatusFlags) -> ChangeKind {
    if s.index_new {
        ChangeKind::Added
    } else if s.index_modified {
        ChangeKind::Modified
    } else if s.index_deleted {
        ChangeKind::Deleted
    } else if s.index_renamed {
        ChangeKind::Renamed
    } else {
        ChangeKind::Typechange
    }
}

/// The kind shown for an unstaged change; the first flag that is set decides.
pub open spec fn unstaged_kind(s: StatusFlags) -> ChangeKind {
    if s.wt_modified {
        ChangeKind::Modified
    } else if s.wt_deleted {
        ChangeKind::Deleted
    } else if s.wt_renamed {
        ChangeKind::Renamed
    } else {
        ChangeKind::Typechange
    }
}

impl StatusFlags {
    /// No flag set.
    pub fn none() -> (s: Self)
        ensures
            !index_changed(s),
            !worktree_changed(s),
            !s.wt_new,
    {
        StatusFlags {
            index_new: false,
            index_modified: false,
            index_deleted: false,
            index_renamed: false,
            index_typechange: false,
            wt_new: false,
            wt_modified: false,
            wt_deleted: false,
            wt_typechange: false,
            wt_renamed: false,
        }
    }

    /// Whether some flag is set in both `self` and `mask`.
    pub fn intersects(&self, mask: &StatusFlags) -> (b: bool)
        ensures
            b == flags_intersect(*self, *mask),
    {
        (self.index_new && mask.index_new) || (self.index_modified && mask.index_modified) || (
        self.index_deleted && mask.index_deleted) || (self.index_renamed && mask.index_renamed) || (
        self.index_typechange && mask.index_typechange) || (self.wt_new && mask.wt_new) || (
        self.wt_modified && mask.wt_modified) || (self.wt_deleted && mask.wt_deleted) || (
        self.wt_typechange && mask.wt_typechange) || (self.wt_renamed && mask.wt_renamed)
    }

    /// Whether the index differs from HEAD for the path.
    pub fn is_index_changed(&self) -> (b: bool)
        ensures
            b == index_changed(*self),
    {
        self.index_new || self.index_modified || self.index_deleted || self.index_renamed
            || self.index_typechange
    }

    /// Whether the working tree differs from the index for a tracked path.
    pub fn is_worktree_changed(&self) -> (b: bool)
        ensures
            b == worktree_changed(*self),
    {
        self.wt_modified || self.wt_deleted || self.wt_renamed || self.wt_typechange
    }
}

/// Every index flag: what an unstage-all operation looks for.
pub open spec fn index_mask() -> StatusFlags {
    StatusFlags {
        index_new: true,
        index_modified: true,
        index_deleted: true,
        index_renamed: true,
        index_typechange: true,
        wt_new: false,
        wt_modified: false,
        wt_deleted: false,
        wt_typechange: false,
        wt_renamed: false,
    }
}

/// Every working-tree flag: what a stage operation looks for.
pub open spec fn worktree_mask() -> StatusFlags {
    StatusFlags {
        index_new: false,
        index_modified: false,
        index_deleted: false,
        index_renamed: false,
        index_typechange: false,
        wt_new: true,
        wt_modified: true,
        wt_deleted: true,
        wt_typechange: true,
        wt_renamed: true,
    }
}

/// The mask of every index flag.
pub fn index_flags() -> (m: StatusFlags)
    ensures
        m == index_mask(),
        m.index_new && m.index_modified && m.index_deleted && m.index_renamed && m.index_typechange,
        !m.wt_new && !m.wt_modified && !m.wt_deleted && !m.wt_renamed && !m.wt_typechange,
{
    StatusFlags {
        index_new: true,
        index_modified: true,
        index_deleted: true,
        index_renamed: true,
        index_typechange: true,
        wt_new: false,
        wt_modified: false,
        wt_deleted: false,
        wt_typechange: false,
        wt_renamed: false,
    }
}

/// The mask of every working-tree flag.
pub fn worktree_flags() -> (m: StatusFlags)
    ensures
        m == worktree_mask(),
        m.wt_new && m.wt_modified && m.wt_deleted && m.wt_renamed && m.wt_typechange,
        !m.index_new && !m.index_modified && !m.index_deleted && !m.index_renamed
            && !m.index_typechange,
{
    StatusFlags {
        index_new: false,
        index_modified: false,
        index_deleted: false,
        index_renamed: false,
        index_typechange: false,
        wt_new: true,
        wt_modified: true,
        wt_deleted: true,
        wt_typechange: true,
        wt_renamed: true,
    }
}

/// One path with its status, as git lists it.
#[derive(Debug)]
pub struct StatusEntry {
    pub path: String,
    pub status: StatusFlags,
}

/// Added and deleted line counts of one path in a diff.
#[derive(Debug)]
pub struct LineCount {
    pub path: String,
    pub additions: u32,
    pub deletions: u32,
}

/// A `FileEntry` as plain values: path, kind, additions, deletions.
pub type EntryView = (Seq<char>, ChangeKind, u32, u32);

pub open spec fn entry_view(e: FileEntry) -> EntryView {
    (e.path@, e.kind, e.additions, e.deletions)
}

/// The counts recorded for `path`: those of the last record with that path
/// (a later record replaces an earlier one), or zero.
pub open spec fn count_for(counts: Seq<LineCount>, path: Seq<char>) -> (u32, u32)
    decreases counts.len(),
{
    if counts.len() == 0 {
        (0, 0)
    } else if counts.last().path@ == path {
        (counts.last().additions, counts.last().deletions)
    } else {
        count_for(counts.drop_last(), path)
    }
}

/// The staged entries for the first `n` status entries, in order.
pub open spec fn staged_entries(entries: Seq<StatusEntry>, counts: Seq<LineCount>, n: int) -> Seq<
    EntryView,
>
    decreases n,
{
    if n <= 0 {
        Seq::empty()
    } else {
        let e = entries[n - 1];
        let rest = staged_entries(entries, counts, n - 1);
        if index_changed(e.status) {
            let (a, d) = count_for(counts, e.path@);
            rest.push((e.path@, staged_kind(e.status), a, d))
        } else {
            rest
        }
    }
}

/// The unstaged entries for the first `n` status entries, in order.
pub open spec fn unstaged_entries(entries: Seq<StatusEntry>, counts: Seq<LineCount>, n: int) -> Seq<
    EntryView,
>
    decreases n,
{
    if n <= 0 {
        Seq::empty()
    } else {
        let e = entries[n - 1];
        let rest = unstaged_entries(entries, counts, n - 1);
        if worktree_changed(e.status) {
            let (a, d) = count_for(counts, e.path@);
            rest.push((e.path@, unstaged_kind(e.status), a, d))
        } else {
            rest
        }
    }
}

/// The untracked paths among the first `n` status entries, in order.
pub open spec fn untracked_paths(entries: Seq<StatusEntry>, n: int) -> Seq<Seq<char>>
    decreases n,
{
    if n <= 0 {
        Seq::empty()
    } else {
        let e = entries[n - 1];
        let rest = untracked_paths(entries, n - 1);
        if e.status.wt_new {
            rest.push(e.path@)
        } else {
            rest
        }
    }
}

/// The staged item of one status entry.
pub open spec fn staged_item(e: StatusEntry, counts: Seq<LineCount>) -> EntryView {
    (e.path@, staged_kind(e.status), count_for(counts, e.path@).0, count_for(counts, e.path@).1)
}

/// The unstaged item of one status entry.
pub open spec fn unstaged_item(e: StatusEntry, counts: Seq<LineCount>) -> EntryView {
    (e.path@, unstaged_kind(e.status), count_for(counts, e.path@).0, count_for(counts, e.path@).1)
}

/// `x` is the staged item of an entry whose index differs from HEAD.
pub open spec fn from_staged_change(entries: Seq<StatusEntry>, counts: Seq<LineCount>, x: EntryView) -> bool {
    exists|i: int|
        0 <= i < entries.len() && index_changed(entries[i].status) && x == #[trigger] staged_item(
            entries[i],
            counts,
        )
}

/// `x` is the unstaged item of an entry whose working copy differs from the index.
pub open spec fn from_unstaged_change(entries: Seq<StatusEntry>, counts: Seq<LineCount>, x: EntryView) -> bool {
    exists|i: int|
        0 <= i < entries.len() && worktree_changed(entries[i].status) && x == #[trigger] unstaged_item(
            entries[i],
            counts,
        )
}

/// `p` is the path of an untracked entry.
pub open spec fn from_untracked(entries: Seq<StatusEntry>, p: Seq<char>) -> bool {
    exists|i: int| 0 <= i < entries.len() && entries[i].status.wt_new && p == #[trigger] entries[i].path@
}

proof fn lemma_staged_members(entries: Seq<StatusEntry>, counts: Seq<LineCount>, n: int)
    requires
        0 <= n <= entries.len(),
    ensures
        forall|k: int|
            0 <= k < staged_entries(entries, counts, n).len() ==> from_staged_change(
                entries,
                counts,
                #[trigger] staged_entries(entries, counts, n)[k],
            ),
        forall|i: int|
            0 <= i < n && index_changed(entries[i].status) ==> staged_entries(
                entries,
                counts,
                n,
            ).contains(#[trigger] staged_item(entries[i], counts)),
    decreases n,
{
    if n > 0 {
        lemma_staged_members(entries, counts, n - 1);
        let rest = staged_entries(entries, counts, n - 1);
        let all = staged_entries(entries, counts, n);
        assert forall|k: int| 0 <= k < all.len() implies from_staged_change(entries, counts, #[trigger] all[k]) by {
            if k < rest.len() {
                assert(all[k] == rest[k]);
            } else {
                assert(all[k] == staged_item(entries[n - 1], counts));
            }
        };
        assert forall|i: int| 0 <= i < n && index_changed(entries[i].status) implies all.contains(
            #[trigger] staged_item(entries[i], counts),
        ) by {
            if i < n - 1 {
                let k = choose|k: int| 0 <= k < rest.len() && rest[k] == staged_item(entries[i], counts);
                assert(all[k] == rest[k]);
            } else {
                assert(all[rest.len() as int] == staged_item(entries[n - 1], counts));
            }
        };
    }
}

proof fn lemma_unstaged_members(entries: Seq<StatusEntry>, counts: Seq<LineCount>, n: int)
    requires
        0 <= n <= entries.len(),
    ensures
        forall|k: int|
            0 <= k < unstaged_entries(entries, counts, n).len() ==> from_unstaged_change(
                entries,
                counts,
                #[trigger] unstaged_entries(entries, counts, n)[k],
            ),
        forall|i: int|
            0 <= i < n && worktree_changed(entries[i].status) ==> unstaged_entries(
                entries,
                counts,
                n,
            ).contains(#[trigger] unstaged_item(entries[i], counts)),
    decreases n,
{
    if n > 0 {
        lemma_unstaged_members(entries, counts, n - 1);
        let rest = unstaged_entries(entries, counts, n - 1);
        let all = unstaged_entries(entries, counts, n);
        assert forall|k: int| 0 <= k < all.len() implies from_unstaged_change(entries, counts, #[trigger] all[k]) by {
            if k < rest.len() {
                assert(all[k] == rest[k]);
            } else {
                assert(all[k] == unstaged_item(entries[n - 1], counts));
            }
        };
        assert forall|i: int| 0 <= i < n && worktree_changed(entries[i].status) implies all.contains(
            #[trigger] unstaged_item(entries[i], counts),
        ) by {
            if i < n - 1 {
                let k = choose|k: int| 0 <= k < rest.len() && rest[k] == unstaged_item(entries[i], counts);
                assert(all[k] == rest[k]);
            } else {
                assert(all[rest.len() as int] == unstaged_item(entries[n - 1], counts));
            }
        };
    }
}

proof fn lemma_untracked_members(entries: Seq<StatusEntry>, n: int)
    requires
        0 <= n <= entries.len(),
    ensures
        forall|k: int|
            0 <= k < untracked_paths(entries, n).len() ==> from_untracked(
                entries,
                #[trigger] untracked_paths(entries, n)[k],
            ),
        forall|i: int|
            0 <= i < n && entries[i].status.wt_new ==> untracked_paths(entries, n).contains(
                #[trigger] entries[i].path@,
            ),
    decreases n,
{
    if n > 0 {
        lemma_untracked_members(entries, n - 1);
        let rest = untracked_paths(entries, n - 1);
        let all = untracked_paths(entries, n);
        assert forall|k: int| 0 <= k < all.len() implies from_untracked(entries, #[trigger] all[k]) by {
            if k < rest.len() {
                assert(all[k] == rest[k]);
            } else {
                assert(all[k] == entries[n - 1].path@);
            }
        };
        assert forall|i: int| 0 <= i < n && entries[i].status.wt_new implies all.contains(
            #[trigger] entries[i].path@,
        ) by {
            if i < n - 1 {
                let k = choose|k: int| 0 <= k < rest.len() && rest[k] == entries[i].path@;
                assert(all[k] == rest[k]);
            } else {
                assert(all[rest.len() as int] == entries[n - 1].path@);
            }
        };
    }
}

/// Which list a path lands in: every entry whose index differs from HEAD is
/// in the staged list, with the kind of its first index flag (added,
/// modified, deleted, renamed, type change) and its staged line counts;
/// every entry whose working copy differs from the index is in the unstaged
/// list likewise; every untracked entry's path is in the untracked list; and
/// each list holds nothing else.
pub proof fn law_status_lists_hold_each_changed_path(
    entries: Seq<StatusEntry>,
    staged_counts: Seq<LineCount>,
    unstaged_counts: Seq<LineCount>,
)
    ensures
        forall|i: int|
            0 <= i < entries.len() && index_changed(entries[i].status) ==> staged_entries(
                entries,
                staged_counts,
                entries.len() as int,
            ).contains(#[trigger] staged_item(entries[i], staged_counts)),
        forall|k: int|
            0 <= k < staged_entries(entries, staged_counts, entries.len() as int).len()
                ==> from_staged_change(
                entries,
                staged_counts,
                #[trigger] staged_entries(entries, staged_counts, entries.len() as int)[k],
            ),
        forall|i: int|
            0 <= i < entries.len() && worktree_changed(entries[i].status) ==> unstaged_entries(
                entries,
                unstaged_counts,
                entries.len() as int,
            ).contains(#[trigger] unstaged_item(entries[i], unstaged_counts)),
        forall|k: int|
            0 <= k < unstaged_entries(entries, unstaged_counts, entries.len() as int).len()
                ==> from_unstaged_change(
                entries,
                unstaged_counts,
                #[trigger] unstaged_entries(entries, unstaged_counts, entries.len() as int)[k],
            ),
        forall|i: int|
            0 <= i < entries.len() && entries[i].status.wt_new ==> untracked_paths(
                entries,
                entries.len() as int,
            ).contains(#[trigger] entries[i].path@),
        forall|k: int|
            0 <= k < untracked_paths(entries, entries.len() as int).len() ==> from_untracked(
                entries,
                #[trigger] untracked_paths(entries, entries.len() as int)[k],
            ),
{
    lemma_staged_members(entries, staged_counts, entries.len() as int);
    lemma_unstaged_members(entries, unstaged_counts, entries.len() as int);
    lemma_untracked_members(entries, entries.len() as int);
}

/// The counts recorded for `path`, zero when none is.
pub fn lookup_count(counts: &Vec<LineCount>, path: &str) -> (r: (u32, u32))
    ensures
        r == count_for(counts@, path@),
{
    let mut i: usize = counts.len();
    assert(counts@.take(i as int) =~= counts@);
    while i > 0
        invariant
            i <= counts.len(),
            count_for(counts@, path@) == count_for(counts@.take(i as int), path@),
        decreases i,
    {
        i = i - 1;
        proof {
            assert(counts@.take(i + 1).last() == counts@[i as int]);
            assert(counts@.take(i + 1).drop_last() =~= counts@.take(i as int));
        }
        if string_eq(counts[i].path.as_str(), path) {
            return (counts[i].additions, counts[i].deletions);
        }
    }
    (0, 0)
}

/// The records that are there, in order.
pub open spec fn present<T>(s: Seq<Option<T>>) -> Seq<T>
    decreases s.len(),
{
    if s.len() == 0 {
        Seq::empty()
    } else {
        match s.last() {
            Some(x) => present(s.drop_last()).push(x),
            None => present(s.drop_last()),
        }
    }
}

/// The line counts of a diff from what the workers counted: each worker
/// hands back, for each delta of its range in order, the record of that
/// delta (none when it has no patch); the records are taken in delta order,
/// so a later record of a path replaces an earlier one (see `count_for`).
pub fn merge_line_counts(parts: Vec<Vec<Option<LineCount>>>) -> (out: Vec<LineCount>)
    ensures
        out@ == present(part_views(parts@).flatten_alt()),
{
    let mut all = assemble_chunks(parts);
    let ghost a = all@;
    let mut rev: Vec<LineCount> = Vec::new();
    assert(present(a) =~= present(all@) + rev@.reverse());
    while all.len() > 0
        invariant
            present(a) == present(all@) + rev@.reverse(),
        decreases all@.len(),
    {
        let ghost before = all@;
        let last = all.pop().unwrap();
        proof {
            assert(before.drop_last() =~= all@);
        }
        match last {
            Some(x) => {
                let ghost r0 = rev@;
                rev.push(x);
                proof {
                    assert(rev@.reverse() =~= seq![x] + r0.reverse());
                    assert(present(before) == present(all@).push(x));
                    assert(present(all@).push(x) + r0.reverse() =~= present(all@) + (seq![x]
                        + r0.reverse()));
                }
            },
            None => {
                assert(present(before) == present(all@));
            },
        }
    }
    assert(present(all@) =~= Seq::<LineCount>::empty());
    let mut out: Vec<LineCount> = Vec::new();
    assert(present(a) =~= out@ + rev@.reverse());
    while rev.len() > 0
        invariant
            present(a) == out@ + rev@.reverse(),
        decreases rev@.len(),
    {
        let ghost r0 = rev@;
        let y = rev.pop().unwrap();
        proof {
            assert(r0.reverse() =~= seq![y] + rev@.reverse());
        }
        let ghost o0 = out@;
        out.push(y);
        proof {
            assert(o0 + r0.reverse() =~= out@ + rev@.reverse());
        }
    }
    assert(out@ + rev@.reverse() =~= out@);
    out
}

/// The line counts do not depend on how many workers counted them: however
/// the deltas are cut into ranges, when each worker hands back the records of
/// its range, the merged records, and so the counts of every path, are those
/// of one worker counting all deltas.
pub proof fn law_line_counts_independent_of_workers(
    records: Seq<Option<LineCount>>,
    ranges: Seq<(usize, usize)>,
    parts: Seq<Seq<Option<LineCount>>>,
)
    requires
        cuts_into(ranges, records.len() as int),
        parts.len() == ranges.len(),
        forall|j: int|
            0 <= j < parts.len() ==> #[trigger] parts[j] == records.subrange(
                ranges[j].0 as int,
                ranges[j].1 as int,
            ),
    ensures
        present(parts.flatten_alt()) == present(records),
        forall|path: Seq<char>| #[trigger] count_for(present(parts.flatten_alt()), path) == count_for(
            present(records),
            path,
        ),
{
    law_chunked_results_reassemble(records, ranges, parts);
}

fn copy_string(s: &String) -> (r: String)
    ensures
        r@ == s@,
{
    s.clone()
}

/// The status of a repository from git's per-path flags and the per-path line
/// counts of the staged (HEAD to index) and unstaged (index to working tree)
/// diffs. A path lands in `staged` when its index differs from HEAD, in
/// `unstaged` when its working copy differs from the index, and in `untracked`
/// when git does not track it; a path can be in both change lists.
pub fn build_repo_status(
    entries: &Vec<StatusEntry>,
    staged_counts: &Vec<LineCount>,
    unstaged_counts: &Vec<LineCount>,
) -> (status: RepoStatus)
    ensures
        status.staged@.map_values(|e: FileEntry| entry_view(e)) == staged_entries(
            entries@,
            staged_counts@,
            entries@.len() as int,
        ),
        status.unstaged@.map_values(|e: FileEntry| entry_view(e)) == unstaged_entries(
            entries@,
            unstaged_counts@,
            entries@.len() as int,
        ),
        status.untracked@.map_values(|s: String| s@) == untracked_paths(
            entries@,
            entries@.len() as int,
        ),
{
    let mut staged: Vec<FileEntry> = Vec::new();
    let mut unstaged: Vec<FileEntry> = Vec::new();
    let mut untracked: Vec<String> = Vec::new();
    let mut i: usize = 0;
    while i < entries.len()
        invariant
            i <= entries.len(),
            staged@.map_values(|e: FileEntry| entry_view(e)) == staged_entries(
                entries@,
                staged_counts@,
                i as int,
            ),
            unstaged@.map_values(|e: FileEntry| entry_view(e)) == unstaged_entries(
                entries@,
                unstaged_counts@,
                i as int,
            ),
            untracked@.map_values(|s: String| s@) == untracked_paths(entries@, i as int),
        decreases entries.len() - i,
    {
        let e = &entries[i];
        let s = e.status;
        if s.is_index_changed() {
            let kind = if s.index_new {
                ChangeKind::Added
            } else if s.index_modified {
                ChangeKind::Modified
            } else if s.index_deleted {
                ChangeKind::Deleted
            } else if s.index_renamed {
                ChangeKind::Renamed
            } else {
                ChangeKind::Typechange
            };
            let (additions, deletions) = lookup_count(staged_counts, e.path.as_str());
            let entry = FileEntry { path: copy_string(&e.path), kind, additions, deletions };
            proof {
                assert(staged@.push(entry).map_values(|e: FileEntry| entry_view(e)) =~= staged@.map_values(
                    |e: FileEntry| entry_view(e),
                ).push(entry_view(entry)));
            }
            staged.push(entry);
        }
        if s.is_worktree_changed() {
            let kind = if s.wt_modified {
                ChangeKind::Modified
            } else if s.wt_deleted {
                ChangeKind::Deleted
            } else if s.wt_renamed {
                ChangeKind::Renamed
            } else {
                ChangeKind::Typechange
            };
            let (additions, deletions) = lookup_count(unstaged_counts, e.path.as_str());
            let entry = FileEntry { path: copy_string(&e.path), kind, additions, deletions };
            proof {
                assert(unstaged@.push(entry).map_values(|e: FileEntry| entry_view(e)) =~= unstaged@.map_values(
                    |e: FileEntry| entry_view(e),
                ).push(entry_view(entry)));
            }
            unstaged.push(entry);
        }
        if s.wt_new {
            let p = copy_string(&e.path);
            proof {
                assert(untracked@.push(p).map_values(|s: String| s@) =~= untracked@.map_values(
                    |s: String| s@,
                ).push(p@));
            }
            untracked.push(p);
        }
        i = i + 1;
    }
    RepoStatus { staged, unstaged, untracked }
}


/// A status entry as plain values.
pub open spec fn status_view(e: StatusEntry) -> (Seq<char>, StatusFlags) {
    (e.path@, e.status)
}

/// The first `n` status entries that have some flag of `mask`, in order.
pub open spec fn matching_entries(entries: Seq<StatusEntry>, mask: StatusFlags, n: int) -> Seq<
    (Seq<char>, StatusFlags),
>
    decreases n,
{
    if n <= 0 {
        Seq::empty()
    } else {
        let rest = matching_entries(entries, mask, n - 1);
        if flags_intersect(entries[n - 1].status, mask) {
            rest.push(status_view(entries[n - 1]))
        } else {
            rest
        }
    }
}

/// The paths of status items.
pub open spec fn paths_of(items: Seq<(Seq<char>, StatusFlags)>) -> Seq<Seq<char>> {
    items.map_values(|x: (Seq<char>, StatusFlags)| x.0)
}

/// `out` is `items` sorted by path with one item per path, the first met.
pub open spec fn sorted_unique_by_path(
    items: Seq<(Seq<char>, StatusFlags)>,
    out: Seq<(Seq<char>, StatusFlags)>,
) -> bool {
    exists|order: Seq<usize>|
        #[trigger] is_sorted_unique_order(paths_of(items), order)
            && out == order.map_values(|i: usize| items[i as int])
}

/// Two sets of flags intersect exactly when some flag is set in both: each
/// of the ten flags, set in both, makes them intersect, and nothing else does.
pub proof fn law_flags_intersect_on_any_shared_flag(s: StatusFlags, m: StatusFlags)
    ensures
        flags_intersect(s, m) <==> ((s.index_new && m.index_new) || (s.index_modified && m.index_modified)
                || (s.index_deleted && m.index_deleted) || (s.index_renamed && m.index_renamed)
                || (s.index_typechange && m.index_typechange) || (s.wt_new && m.wt_new)
                || (s.wt_modified && m.wt_modified) || (s.wt_deleted && m.wt_deleted)
                || (s.wt_typechange && m.wt_typechange) || (s.wt_renamed && m.wt_renamed)),
{
}

/// The kind of a staged change is named by the first index flag that is set,
/// in the order new, modified, deleted, renamed, type change: an entry whose
/// only index flag is `index_deleted` is staged as `Deleted`, and so on; it is
/// in the staged list with its staged line counts.
pub proof fn law_staged_kind_follows_index_flags(
    entries: Seq<StatusEntry>,
    counts: Seq<LineCount>,
    i: int,
)
    requires
        0 <= i < entries.len(),
        entries[i].status.index_new || entries[i].status.index_modified
            || entries[i].status.index_deleted || entries[i].status.index_renamed
            || entries[i].status.index_typechange,
    ensures
        staged_entries(entries, counts, entries.len() as int).contains(
            (
                entries[i].path@,
                if entries[i].status.index_new {
                    ChangeKind::Added
                } else if entries[i].status.index_modified {
                    ChangeKind::Modified
                } else if entries[i].status.index_deleted {
                    ChangeKind::Deleted
                } else if entries[i].status.index_renamed {
                    ChangeKind::Renamed
                } else {
                    ChangeKind::Typechange
                },
                count_for(counts, entries[i].path@).0,
                count_for(counts, entries[i].path@).1,
            ),
        ),
{
    lemma_staged_members(entries, counts, entries.len() as int);
    assert(staged_entries(entries, counts, entries.len() as int).contains(staged_item(entries[i], counts)));
}

/// The kind of an unstaged change is named by the first working-tree flag
/// that is set, in the order modified, deleted, renamed, type change; the
/// entry is in the unstaged list with its unstaged line counts.
pub proof fn law_unstaged_kind_follows_worktree_flags(
    entries: Seq<StatusEntry>,
    counts: Seq<LineCount>,
    i: int,
)
    requires
        0 <= i < entries.len(),
        entries[i].status.wt_modified || entries[i].status.wt_deleted
            || entries[i].status.wt_renamed || entries[i].status.wt_typechange,
    ensures
        unstaged_entries(entries, counts, entries.len() as int).contains(
            (
                entries[i].path@,
                if entries[i].status.wt_modified {
                    ChangeKind::Modified
                } else if entries[i].status.wt_deleted {
                    ChangeKind::Deleted
                } else if entries[i].status.wt_renamed {
                    ChangeKind::Renamed
                } else {
                    ChangeKind::Typechange
                },
                count_for(counts, entries[i].path@).0,
                count_for(counts, entries[i].path@).1,
            ),
        ),
{
    lemma_unstaged_members(entries, counts, entries.len() as int);
    assert(unstaged_entries(entries, counts, entries.len() as int).contains(unstaged_item(entries[i], counts)));
}

proof fn lemma_matching_has_entry(entries: Seq<StatusEntry>, mask: StatusFlags, n: int, i: int)
    requires
        0 <= i < n <= entries.len(),
        flags_intersect(entries[i].status, mask),
    ensures
        matching_entries(entries, mask, n).contains(status_view(entries[i])),
    decreases n,
{
    let rest = matching_entries(entries, mask, n - 1);
    if i < n - 1 {
        lemma_matching_has_entry(entries, mask, n - 1, i);
        let k = choose|k: int| 0 <= k < rest.len() && rest[k] == status_view(entries[i]);
        if flags_intersect(entries[n - 1].status, mask) {
            assert(rest.push(status_view(entries[n - 1]))[k] == rest[k]);
        }
    } else {
        assert(rest.push(status_view(entries[n - 1]))[rest.len() as int] == status_view(entries[i]));
    }
}

proof fn lemma_sorted_keeps_every_path(
    items: Seq<(Seq<char>, StatusFlags)>,
    out: Seq<(Seq<char>, StatusFlags)>,
    k: int,
)
    requires
        sorted_unique_by_path(items, out),
        0 <= k < items.len(),
    ensures
        exists|j: int| 0 <= j < out.len() && #[trigger] out[j].0 == items[k].0,
{
    let order = choose|order: Seq<usize>|
        #[trigger] is_sorted_unique_order(paths_of(items), order) && out == order.map_values(
            |i: usize| items[i as int],
        );
    let keys = paths_of(items);
    assert(keys[k] == items[k].0);
    let j = choose|j: int| 0 <= j < order.len() && keys[#[trigger] order[j] as int] == #[trigger] keys[k];
    assert(order[j] < keys.len());
    assert(out[j] == items[order[j] as int]);
    assert(out[j].0 == keys[order[j] as int]);
}

/// Unstaging everything takes every path with a staged change: whatever
/// index flag an entry has (a staged deletion included), its path is among
/// the paths chosen with the index flags.
pub proof fn law_unstage_all_takes_every_staged_path(
    entries: Seq<StatusEntry>,
    chosen: Seq<(Seq<char>, StatusFlags)>,
    i: int,
)
    requires
        sorted_unique_by_path(matching_entries(entries, index_mask(), entries.len() as int), chosen),
        0 <= i < entries.len(),
        entries[i].status.index_new || entries[i].status.index_modified
            || entries[i].status.index_deleted || entries[i].status.index_renamed
            || entries[i].status.index_typechange,
    ensures
        exists|j: int| 0 <= j < chosen.len() && #[trigger] chosen[j].0 == entries[i].path@,
{
    let me = matching_entries(entries, index_mask(), entries.len() as int);
    lemma_matching_has_entry(entries, index_mask(), entries.len() as int, i);
    let k = choose|k: int| 0 <= k < me.len() && me[k] == status_view(entries[i]);
    lemma_sorted_keeps_every_path(me, chosen, k);
}

/// Staging everything takes every path with a working-tree change: whatever
/// working-tree flag an entry has (untracked included), its path is among the
/// paths chosen with the working-tree flags.
pub proof fn law_stage_all_takes_every_unstaged_path(
    entries: Seq<StatusEntry>,
    chosen: Seq<(Seq<char>, StatusFlags)>,
    i: int,
)
    requires
        sorted_unique_by_path(matching_entries(entries, worktree_mask(), entries.len() as int), chosen),
        0 <= i < entries.len(),
        entries[i].status.wt_new || entries[i].status.wt_modified || entries[i].status.wt_deleted
            || entries[i].status.wt_renamed || entries[i].status.wt_typechange,
    ensures
        exists|j: int| 0 <= j < chosen.len() && #[trigger] chosen[j].0 == entries[i].path@,
{
    let me = matching_entries(entries, worktree_mask(), entries.len() as int);
    lemma_matching_has_entry(entries, worktree_mask(), entries.len() as int, i);
    let k = choose|k: int| 0 <= k < me.len() && me[k] == status_view(entries[i]);
    lemma_sorted_keeps_every_path(me, chosen, k);
}

/// The entries with some flag of `mask`, sorted by path, one per path.
pub fn collect_status_paths(entries: &Vec<StatusEntry>, mask: &StatusFlags) -> (out: Vec<StatusEntry>)
    ensures
        sorted_unique_by_path(
            matching_entries(entries@, *mask, entries@.len() as int),
            out@.map_values(|e: StatusEntry| status_view(e)),
        ),
        forall|i: int|
            0 <= i < entries@.len() && ((entries@[i].status.index_new && mask.index_new) || (entries@[i].status.index_modified && mask.index_modified)
                || (entries@[i].status.index_deleted && mask.index_deleted) || (entries@[i].status.index_renamed && mask.index_renamed)
                || (entries@[i].status.index_typechange && mask.index_typechange) || (entries@[i].status.wt_new && mask.wt_new)
                || (entries@[i].status.wt_modified && mask.wt_modified) || (entries@[i].status.wt_deleted && mask.wt_deleted)
                || (entries@[i].status.wt_typechange && mask.wt_typechange) || (entries@[i].status.wt_renamed && mask.wt_renamed)) ==> exists|j: int|
                0 <= j < out@.len() && #[trigger] out@[j].path@ == entries@[i].path@,
{
    let mut keys: Vec<String> = Vec::new();
    let mut matching: Vec<StatusEntry> = Vec::new();
    let mut i: usize = 0;
    while i < entries.len()
        invariant
            i <= entries.len(),
            matching@.map_values(|e: StatusEntry| status_view(e)) == matching_entries(
                entries@,
                *mask,
                i as int,
            ),
            keys@.map_values(|k: String| k@) == matching@.map_values(
                |e: StatusEntry| status_view(e),
            ).map_values(|x: (Seq<char>, StatusFlags)| x.0),
        decreases entries.len() - i,
    {
        if entries[i].status.intersects(mask) {
            let e = StatusEntry { path: copy_string(&entries[i].path), status: entries[i].status };
            let k = copy_string(&entries[i].path);
            proof {
                assert(matching@.push(e).map_values(|e: StatusEntry| status_view(e)) =~= matching@.map_values(
                    |e: StatusEntry| status_view(e),
                ).push(status_view(e)));
                assert(keys@.push(k).map_values(|k: String| k@) =~= keys@.map_values(
                    |k: String| k@,
                ).push(k@));
                assert(matching@.push(e).map_values(|e: StatusEntry| status_view(e)).map_values(
                    |x: (Seq<char>, StatusFlags)| x.0,
                ) =~= matching@.map_values(|e: StatusEntry| status_view(e)).map_values(
                    |x: (Seq<char>, StatusFlags)| x.0,
                ).push(k@));
            }
            matching.push(e);
            keys.push(k);
        }
        i = i + 1;
    }
    let order = sorted_unique_order(&keys);
    let ghost items = matching@.map_values(|e: StatusEntry| status_view(e));
    let mut out: Vec<StatusEntry> = Vec::new();
    let mut j: usize = 0;
    while j < order.len()
        invariant
            j <= order.len(),
            items == matching@.map_values(|e: StatusEntry| status_view(e)),
            keys@.map_values(|k: String| k@) == items.map_values(
                |x: (Seq<char>, StatusFlags)| x.0,
            ),
            is_sorted_unique_order(keys@.map_values(|k: String| k@), order@),
            matching@.len() == keys@.len(),
            out@.map_values(|e: StatusEntry| status_view(e)) == order@.take(j as int).map_values(
                |i: usize| items[i as int],
            ),
        decreases order.len() - j,
    {
        let idx = order[j];
        proof {
            assert(order@[j as int] < keys@.len());
        }
        let e = StatusEntry { path: copy_string(&matching[idx].path), status: matching[idx].status };
        proof {
            assert(out@.push(e).map_values(|e: StatusEntry| status_view(e)) =~= out@.map_values(
                |e: StatusEntry| status_view(e),
            ).push(status_view(e)));
            assert(order@.take(j + 1).map_values(|i: usize| items[i as int]) =~= order@.take(
                j as int,
            ).map_values(|i: usize| items[i as int]).push(items[idx as int]));
        }
        out.push(e);
        j = j + 1;
    }
    proof {
        assert(order@.take(order@.len() as int) =~= order@);
        assert(is_sorted_unique_order(paths_of(items), order@));
        let ov = out@.map_values(|e: StatusEntry| status_view(e));
        let me = matching_entries(entries@, *mask, entries@.len() as int);
        assert(sorted_unique_by_path(me, ov));
        assert forall|i: int|
            0 <= i < entries@.len() && flags_intersect(entries@[i].status, *mask) implies exists|j: int|
                0 <= j < out@.len() && #[trigger] out@[j].path@ == entries@[i].path@ by {
            lemma_matching_has_entry(entries@, *mask, entries@.len() as int, i);
            let k = choose|k: int| 0 <= k < me.len() && me[k] == status_view(entries@[i]);
            lemma_sorted_keeps_every_path(me, ov, k);
            let j = choose|j: int| 0 <= j < ov.len() && #[trigger] ov[j].0 == me[k].0;
            assert(ov[j] == status_view(out@[j]));
        };
    }
    out
}

/// The paths of the entries with some flag of `mask`, sorted, without repeats.
pub fn collect_paths(entries: &Vec<StatusEntry>, mask: &StatusFlags) -> (out: Vec<String>)
    ensures
        exists|sorted: Seq<(Seq<char>, StatusFlags)>|
            #[trigger] sorted_unique_by_path(matching_entries(entries@, *mask, entries@.len() as int), sorted)
                && out@.map_values(|s: String| s@) == sorted.map_values(
                |x: (Seq<char>, StatusFlags)| x.0,
            ),
        forall|i: int|
            0 <= i < entries@.len() && ((entries@[i].status.index_new && mask.index_new) || (entries@[i].status.index_modified && mask.index_modified)
                || (entries@[i].status.index_deleted && mask.index_deleted) || (entries@[i].status.index_renamed && mask.index_renamed)
                || (entries@[i].status.index_typechange && mask.index_typechange) || (entries@[i].status.wt_new && mask.wt_new)
                || (entries@[i].status.wt_modified && mask.wt_modified) || (entries@[i].status.wt_deleted && mask.wt_deleted)
                || (entries@[i].status.wt_typechange && mask.wt_typechange) || (entries@[i].status.wt_renamed && mask.wt_renamed)) ==> out@.map_values(
                |s: String| s@,
            ).contains(entries@[i].path@),
{
    let chosen = collect_status_paths(entries, mask);
    let ghost sorted = chosen@.map_values(|e: StatusEntry| status_view(e));
    let mut out: Vec<String> = Vec::new();
    let mut j: usize = 0;
    while j < chosen.len()
        invariant
            j <= chosen.len(),
            sorted == chosen@.map_values(|e: StatusEntry| status_view(e)),
            out@.map_values(|s: String| s@) == sorted.take(j as int).map_values(
                |x: (Seq<char>, StatusFlags)| x.0,
            ),
        decreases chosen.len() - j,
    {
        let p = copy_string(&chosen[j].path);
        proof {
            assert(out@.push(p).map_values(|s: String| s@) =~= out@.map_values(|s: String| s@).push(
                p@,
            ));
            assert(sorted.take(j + 1).map_values(|x: (Seq<char>, StatusFlags)| x.0) =~= sorted.take(
                j as int,
            ).map_values(|x: (Seq<char>, StatusFlags)| x.0).push(p@));
        }
        out.push(p);
        j = j + 1;
    }
    assert(sorted.take(sorted.len() as int) =~= sorted);
    assert(sorted_unique_by_path(matching_entries(entries@, *mask, entries@.len() as int), sorted));
    proof {
        let ov = out@.map_values(|s: String| s@);
        assert forall|i: int|
            0 <= i < entries@.len() && flags_intersect(entries@[i].status, *mask) implies ov.contains(
                entries@[i].path@,
            ) by {
            let j = choose|j: int| 0 <= j < chosen@.len() && #[trigger] chosen@[j].path@ == entries@[i].path@;
            assert(sorted[j] == status_view(chosen@[j]));
            assert(ov[j] == sorted.map_values(|x: (Seq<char>, StatusFlags)| x.0)[j]);
        };
    }
    out
}

/// The items among the first `n` that lie strictly below the directory
/// with names `dir`, in order.
pub open spec fn entries_below(items: Seq<(Seq<char>, StatusFlags)>, dir: Seq<Seq<char>>, n: int) -> Seq<
    (Seq<char>, StatusFlags),
>
    decreases n,
{
    if n <= 0 {
        Seq::empty()
    } else {
        let rest = entries_below(items, dir, n - 1);
        if strictly_below(items[n - 1].0, dir) {
            rest.push(items[n - 1])
        } else {
            rest
        }
    }
}

/// What staging the directory with names `dir_names` stages: the entries
/// with a working-tree change (sorted by path, one per path, as for staging
/// everything) that lie strictly below the directory, in that order.
pub fn directory_stage_entries(entries: &Vec<StatusEntry>, dir_names: &Vec<String>) -> (out: Vec<
    StatusEntry,
>)
    ensures
        exists|sorted: Seq<(Seq<char>, StatusFlags)>|
            #[trigger] sorted_unique_by_path(
                matching_entries(entries@, worktree_mask(), entries@.len() as int),
                sorted,
            ) && out@.map_values(|e: StatusEntry| status_view(e)) == entries_below(
                sorted,
                dir_names@.map_values(|s: String| s@),
                sorted.len() as int,
            ),
{
    let mask = worktree_flags();
    let chosen = collect_status_paths(entries, &mask);
    let ghost sorted = chosen@.map_values(|e: StatusEntry| status_view(e));
    let ghost dir = dir_names@.map_values(|s: String| s@);
    let mut out: Vec<StatusEntry> = Vec::new();
    let mut j: usize = 0;
    while j < chosen.len()
        invariant
            j <= chosen.len(),
            sorted == chosen@.map_values(|e: StatusEntry| status_view(e)),
            dir == dir_names@.map_values(|s: String| s@),
            out@.map_values(|e: StatusEntry| status_view(e)) == entries_below(sorted, dir, j as int),
        decreases chosen.len() - j,
    {
        assert(sorted[j as int] == status_view(chosen@[j as int]));
        if is_strict_descendant(chosen[j].path.as_str(), dir_names) {
            let e = StatusEntry { path: copy_string(&chosen[j].path), status: chosen[j].status };
            proof {
                assert(out@.push(e).map_values(|e: StatusEntry| status_view(e)) =~= out@.map_values(
                    |e: StatusEntry| status_view(e),
                ).push(status_view(e)));
            }
            out.push(e);
        }
        j = j + 1;
    }
    assert(sorted_unique_by_path(matching_entries(entries@, worktree_mask(), entries@.len() as int), sorted));
    out
}

} // verus!
