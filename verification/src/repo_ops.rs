//! The decisions behind staging, discarding and committing: what each
//! operation does to the index and the working tree for a given git state.

use vstd::prelude::*;

use crate::order::string_eq;
use crate::status::{flags_intersect, index_changed, StatusFlags};
use crate::text::{blank, is_blank};
use crate::text::concat2;
use crate::types::{is_git_error, BackendError, CloneProgress};

verus! {

/// What staging does to the index entry of one path.
#[derive(Debug, Clone, Copy, PartialEq, Eq, Structural)]
pub enum IndexAction {
    /// Add the working copy to the index.
    Add,
    /// Remove the path from the index.
    Remove,
    /// Leave the index alone.
    Keep,
}

/// Flags under which a path missing from disk is removed from the index when staged.
pub open spec fn removal_mask() -> StatusFlags {
    StatusFlags {
        index_new: false,
        index_modified: false,
        index_deleted: true,
        index_renamed: true,
        index_typechange: true,
        wt_new: false,
        wt_modified: false,
        wt_deleted: true,
        wt_typechange: true,
        wt_renamed: true,
    }
}

/// Staging one path: a file present on disk is added; a missing one is
/// removed from the index when git reports it deleted, renamed or changed in
/// type; otherwise (or with no status) nothing happens.
pub fn stage_index_action(exists_on_disk: bool, status: Option<StatusFlags>) -> (a: IndexAction)
    ensures
        exists_on_disk ==> a == IndexAction::Add,
        !exists_on_disk ==> a == (match status {
            Some(s) => if flags_intersect(s, removal_mask()) {
                IndexAction::Remove
            } else {
                IndexAction::Keep
            },
            None => IndexAction::Keep,
        }),
{
    if exists_on_disk {
        return IndexAction::Add;
    }
    match status {
        None => IndexAction::Keep,
        Some(s) => {
            let mask = StatusFlags {
                index_new: false,
                index_modified: false,
                index_deleted: true,
                index_renamed: true,
                index_typechange: true,
                wt_new: false,
                wt_modified: false,
                wt_deleted: true,
                wt_typechange: true,
                wt_renamed: true,
            };
            if s.intersects(&mask) {
                IndexAction::Remove
            } else {
                IndexAction::Keep
            }
        },
    }
}

/// The steps that discard the local changes of one path.
#[derive(Debug, Clone, Copy, PartialEq, Eq, Structural)]
pub struct DiscardPlan {
    /// The path is untracked and unstaged: delete it from disk and stop.
    pub remove_untracked: bool,
    /// Reset the index entry to HEAD (or drop it when there is no HEAD).
    pub reset_index: bool,
    /// Check the path out of HEAD, overwriting the working copy.
    pub restore_from_head: bool,
}

/// How a path is discarded, from its status and whether HEAD exists. A
/// purely untracked path is deleted; otherwise a dirty index entry is reset
/// and, when there is a HEAD, the working copy is restored from it.
pub fn discard_plan(status: StatusFlags, head_exists: bool) -> (p: DiscardPlan)
    ensures
        p.remove_untracked == (status.wt_new && !index_changed(status)),
        p.remove_untracked ==> !p.reset_index && !p.restore_from_head,
        !p.remove_untracked ==> p.reset_index == index_changed(status) && p.restore_from_head
            == head_exists,
{
    let index_dirty = status.is_index_changed();
    if status.wt_new && !index_dirty {
        DiscardPlan { remove_untracked: true, reset_index: false, restore_from_head: false }
    } else {
        DiscardPlan {
            remove_untracked: false,
            reset_index: index_dirty,
            restore_from_head: head_exists,
        }
    }
}

/// After the reset and checkout of a discard, a path that is left untracked
/// (a staged new file with no HEAD counterpart) is deleted from disk.
pub fn discard_leaves_untracked(post: StatusFlags) -> (b: bool)
    ensures
        b == (post.wt_new && !index_changed(post)),
{
    post.wt_new && !post.is_index_changed()
}

/// A commit message must hold some non-white-space character.
pub fn check_commit_message(message: &str) -> (r: Result<(), BackendError>)
    ensures
        r is Ok <==> !blank(message@),
        r matches Err(e) ==> is_git_error(e, "commit message cannot be empty"@),
{
    if is_blank(message) {
        Err(BackendError::Git(String::from_str("commit message cannot be empty")))
    } else {
        Ok(())
    }
}

/// What HEAD looks like when a commit is made.
#[derive(Debug)]
pub enum HeadState {
    /// HEAD does not resolve (an unborn branch).
    Missing,
    /// HEAD resolves; `tree` is the id of its commit's tree, when it peels to a commit.
    Present { tree: Option<String> },
}

/// How the new commit is made.
#[derive(Debug, Clone, Copy, PartialEq, Eq, Structural)]
pub enum CommitKind {
    /// Rewrite the HEAD commit with the new tree and message.
    Amend,
    /// A new commit whose parent is the HEAD commit.
    WithParent,
    /// The first commit of the branch, without parents.
    Root,
}

/// Decides how to commit the tree `new_tree` written from the index. Without
/// `amend`, a tree equal to HEAD's is refused as an empty commit; with
/// `amend`, there must be a HEAD to amend.
pub fn commit_kind(amend: bool, new_tree: &str, head: &HeadState) -> (r: Result<
    CommitKind,
    BackendError,
>)
    ensures
        amend ==> (match head {
            HeadState::Missing => (r matches Err(e) && is_git_error(
                e,
                "cannot amend: no commit to amend"@,
            )),
            HeadState::Present { .. } => r == Ok::<CommitKind, BackendError>(CommitKind::Amend),
        }),
        !amend ==> (match head {
            HeadState::Missing => r == Ok::<CommitKind, BackendError>(CommitKind::Root),
            HeadState::Present { tree } => if tree is Some && tree->0@ == new_tree@ {
                (r matches Err(e) && is_git_error(e, "nothing to commit: index matches HEAD"@))
            } else {
                r == Ok::<CommitKind, BackendError>(CommitKind::WithParent)
            },
        }),
{
    if amend {
        match head {
            HeadState::Missing => Err(
                BackendError::Git(String::from_str("cannot amend: no commit to amend")),
            ),
            HeadState::Present { .. } => Ok(CommitKind::Amend),
        }
    } else {
        match head {
            HeadState::Missing => Ok(CommitKind::Root),
            HeadState::Present { tree } => {
                match tree {
                    Some(t) => {
                        if string_eq(t.as_str(), new_tree) {
                            Err(
                                BackendError::Git(
                                    String::from_str("nothing to commit: index matches HEAD"),
                                ),
                            )
                        } else {
                            Ok(CommitKind::WithParent)
                        }
                    },
                    None => Ok(CommitKind::WithParent),
                }
            },
        }
    }
}

/// The progress report of a clone while objects are fetched.
pub fn fetch_progress(
    id: &str,
    received_objects: usize,
    total_objects: usize,
    indexed_objects: usize,
    received_bytes: usize,
) -> (p: CloneProgress)
    ensures
        p.id@ == id@,
        p.phase@ == "fetch"@,
        p.received_objects == received_objects,
        p.total_objects == total_objects,
        p.indexed_objects == indexed_objects,
        p.received_bytes == received_bytes,
        p.checkout_current == 0,
        p.checkout_total == 0,
{
    CloneProgress {
        id: String::from_str(id),
        phase: String::from_str("fetch"),
        received_objects,
        total_objects,
        indexed_objects,
        received_bytes,
        checkout_current: 0,
        checkout_total: 0,
    }
}

/// The progress report of a clone while the working tree is checked out.
pub fn checkout_progress(id: &str, current: usize, total: usize) -> (p: CloneProgress)
    ensures
        p.id@ == id@,
        p.phase@ == "checkout"@,
        p.received_objects == 0,
        p.total_objects == 0,
        p.indexed_objects == 0,
        p.received_bytes == 0,
        p.checkout_current == current,
        p.checkout_total == total,
{
    CloneProgress {
        id: String::from_str(id),
        phase: String::from_str("checkout"),
        received_objects: 0,
        total_objects: 0,
        indexed_objects: 0,
        received_bytes: 0,
        checkout_current: current,
        checkout_total: total,
    }
}

/// The report of a clone's progress, unless the clone was cancelled: then
/// nothing is reported and the transfer stops (`None`).
pub fn report_unless_cancelled(cancelled: bool, report: CloneProgress) -> (r: Option<CloneProgress>)
    ensures
        cancelled ==> r is None,
        !cancelled ==> r == Some(report),
{
    if cancelled {
        None
    } else {
        Some(report)
    }
}

/// Why a clone failed: a cancelled clone says so whatever git reported;
/// otherwise git's error follows `clone failed: `.
pub fn clone_failure(cancelled: bool, details: &str) -> (m: String)
    ensures
        m@ == (if cancelled {
            "clone cancelled"@
        } else {
            "clone failed: "@ + details@
        }),
{
    if cancelled {
        String::from_str("clone cancelled")
    } else {
        concat2("clone failed: ", details)
    }
}

} // verus!
