use diff_core::repo_ops::{
    check_commit_message, checkout_progress, clone_failure, commit_kind, discard_leaves_untracked,
    discard_plan, fetch_progress, report_unless_cancelled, stage_index_action,
    CommitKind, DiscardPlan, HeadState, IndexAction,
};
use diff_core::status::{
    build_repo_status, collect_paths, collect_status_paths, directory_stage_entries, index_flags, lookup_count,
    merge_line_counts, worktree_flags, LineCount, StatusEntry, StatusFlags,
};
use diff_core::contents::worker_ranges;
use diff_core::types::{BackendError, ChangeKind};

fn entry(path: &str, f: impl Fn(&mut StatusFlags)) -> StatusEntry {
    let mut s = StatusFlags::none();
    f(&mut s);
    StatusEntry { path: path.to_string(), status: s }
}

fn count(path: &str, a: u32, d: u32) -> LineCount {
    LineCount { path: path.to_string(), additions: a, deletions: d }
}

#[test]
fn empty_repo_has_empty_status() {
    let status = build_repo_status(&Vec::new(), &Vec::new(), &Vec::new());
    assert!(status.staged.is_empty());
    assert!(status.unstaged.is_empty());
    assert!(status.untracked.is_empty());
}

#[test]
fn untracked_file_appears_in_status() {
    let entries = vec![entry("hello.txt", |s| s.wt_new = true)];
    let status = build_repo_status(&entries, &Vec::new(), &Vec::new());
    assert_eq!(status.untracked, vec!["hello.txt".to_string()]);
    assert!(status.staged.is_empty());
}

#[test]
fn staged_new_file_is_added_with_counts() {
    let entries = vec![entry("hello.txt", |s| s.index_new = true)];
    let status = build_repo_status(&entries, &vec![count("hello.txt", 3, 0)], &Vec::new());
    assert!(status.untracked.is_empty());
    assert_eq!(status.staged.len(), 1);
    assert_eq!(status.staged[0].path, "hello.txt");
    assert_eq!(status.staged[0].kind, ChangeKind::Added);
    assert_eq!((status.staged[0].additions, status.staged[0].deletions), (3, 0));
}

#[test]
fn path_changed_in_index_and_worktree_is_in_both_lists() {
    let entries = vec![
        entry("a.rs", |s| {
            s.index_modified = true;
            s.wt_deleted = true;
        }),
        entry("b.rs", |s| s.wt_renamed = true),
        entry("c.rs", |s| s.index_typechange = true),
    ];
    let status = build_repo_status(&entries, &vec![count("a.rs", 1, 2)], &vec![count("b.rs", 5, 6)]);
    assert_eq!(status.staged.len(), 2);
    assert_eq!(status.staged[0].kind, ChangeKind::Modified);
    assert_eq!((status.staged[0].additions, status.staged[0].deletions), (1, 2));
    assert_eq!(status.staged[1].kind, ChangeKind::Typechange);
    assert_eq!((status.staged[1].additions, status.staged[1].deletions), (0, 0));
    assert_eq!(status.unstaged.len(), 2);
    assert_eq!(status.unstaged[0].kind, ChangeKind::Deleted);
    assert_eq!(status.unstaged[1].path, "b.rs");
    assert_eq!(status.unstaged[1].kind, ChangeKind::Renamed);
    assert_eq!((status.unstaged[1].additions, status.unstaged[1].deletions), (5, 6));
}

#[test]
fn later_counts_replace_earlier_ones() {
    let counts = vec![count("x", 1, 1), count("x", 9, 9)];
    assert_eq!(lookup_count(&counts, "x"), (9, 9));
    assert_eq!(lookup_count(&counts, "y"), (0, 0));
}

#[test]
fn collect_status_paths_filters_sorts_and_dedups() {
    let entries = vec![
        entry("zeta", |s| s.wt_modified = true),
        entry("alpha", |s| s.wt_new = true),
        entry("staged-only", |s| s.index_new = true),
        entry("alpha", |s| s.wt_deleted = true),
    ];
    let out = collect_status_paths(&entries, &worktree_flags());
    let paths: Vec<&str> = out.iter().map(|e| e.path.as_str()).collect();
    assert_eq!(paths, vec!["alpha", "zeta"]);
    assert!(out[0].status.wt_new);
    let idx = collect_paths(&entries, &index_flags());
    assert_eq!(idx, vec!["staged-only".to_string()]);
}

#[test]
fn staging_adds_present_files_and_removes_deleted_ones() {
    let mut deleted = StatusFlags::none();
    deleted.wt_deleted = true;
    let mut modified = StatusFlags::none();
    modified.wt_modified = true;
    assert_eq!(stage_index_action(true, Some(deleted)), IndexAction::Add);
    assert_eq!(stage_index_action(false, Some(deleted)), IndexAction::Remove);
    assert_eq!(stage_index_action(false, Some(modified)), IndexAction::Keep);
    assert_eq!(stage_index_action(false, None), IndexAction::Keep);
}

#[test]
fn discard_plans() {
    let mut untracked = StatusFlags::none();
    untracked.wt_new = true;
    assert_eq!(
        discard_plan(untracked, true),
        DiscardPlan { remove_untracked: true, reset_index: false, restore_from_head: false }
    );
    let mut staged_new = StatusFlags::none();
    staged_new.index_new = true;
    assert_eq!(
        discard_plan(staged_new, false),
        DiscardPlan { remove_untracked: false, reset_index: true, restore_from_head: false }
    );
    let mut modified = StatusFlags::none();
    modified.wt_modified = true;
    assert_eq!(
        discard_plan(modified, true),
        DiscardPlan { remove_untracked: false, reset_index: false, restore_from_head: true }
    );
    assert!(discard_leaves_untracked(untracked));
    assert!(!discard_leaves_untracked(staged_new));
}

fn git_msg(e: BackendError) -> String {
    match e {
        BackendError::Git(m) => m,
        other => panic!("unexpected {other:?}"),
    }
}

#[test]
fn commit_rules() {
    assert_eq!(git_msg(check_commit_message("  \n").unwrap_err()), "commit message cannot be empty");
    assert!(check_commit_message("first commit").is_ok());

    let head = HeadState::Present { tree: Some("abc".to_string()) };
    assert_eq!(git_msg(commit_kind(false, "abc", &head).unwrap_err()), "nothing to commit: index matches HEAD");
    assert_eq!(commit_kind(false, "def", &head).unwrap(), CommitKind::WithParent);
    assert_eq!(commit_kind(true, "abc", &head).unwrap(), CommitKind::Amend);
    assert_eq!(commit_kind(false, "abc", &HeadState::Missing).unwrap(), CommitKind::Root);
    assert_eq!(git_msg(commit_kind(true, "abc", &HeadState::Missing).unwrap_err()), "cannot amend: no commit to amend");
    assert_eq!(commit_kind(false, "abc", &HeadState::Present { tree: None }).unwrap(), CommitKind::WithParent);
}

#[test]
fn clone_reports() {
    let f = fetch_progress("c1", 10, 20, 5, 4096);
    assert_eq!(f.id, "c1");
    assert_eq!(f.phase, "fetch");
    assert_eq!((f.received_objects, f.total_objects, f.indexed_objects, f.received_bytes), (10, 20, 5, 4096));
    assert_eq!((f.checkout_current, f.checkout_total), (0, 0));
    let c = checkout_progress("c1", 3, 7);
    assert_eq!(c.phase, "checkout");
    assert_eq!((c.received_objects, c.total_objects, c.indexed_objects, c.received_bytes), (0, 0, 0, 0));
    assert_eq!((c.checkout_current, c.checkout_total), (3, 7));
    assert_eq!(clone_failure(true, "network down"), "clone cancelled");
    assert_eq!(clone_failure(false, "network down"), "clone failed: network down");
}

#[test]
fn staging_a_directory_takes_the_changes_below_it() {
    let entries = vec![
        entry("src/b.rs", |s| s.wt_modified = true),
        entry("src", |s| s.wt_modified = true),
        entry("srcx/c.rs", |s| s.wt_new = true),
        entry("src/a/new.rs", |s| s.wt_new = true),
        entry("src/staged.rs", |s| s.index_modified = true),
        entry("docs/d.md", |s| s.wt_deleted = true),
    ];
    let dir = vec!["src".to_string()];
    let out = directory_stage_entries(&entries, &dir);
    let paths: Vec<&str> = out.iter().map(|e| e.path.as_str()).collect();
    assert_eq!(paths, vec!["src/a/new.rs", "src/b.rs"]);
    assert!(out[0].status.wt_new);
    let all = directory_stage_entries(&entries, &Vec::new());
    assert_eq!(all.len(), 5);
}

#[test]
fn cancelled_clones_report_nothing() {
    assert!(report_unless_cancelled(true, fetch_progress("c", 1, 2, 3, 4)).is_none());
    let r = report_unless_cancelled(false, checkout_progress("c", 5, 6)).unwrap();
    assert_eq!((r.phase.as_str(), r.checkout_current, r.checkout_total), ("checkout", 5, 6));
}

#[test]
fn merged_counts_do_not_depend_on_workers() {
    let records: Vec<Option<LineCount>> = vec![
        Some(count("a", 1, 0)),
        None,
        Some(count("b", 2, 3)),
        Some(count("a", 4, 4)),
        None,
    ];
    let copy = |r: &Option<LineCount>| r.as_ref().map(|c| count(&c.path, c.additions, c.deletions));
    let mut seen: Vec<Vec<(String, u32, u32)>> = Vec::new();
    for par in [None, Some(1), Some(2), Some(3), Some(8)] {
        let ranges = worker_ranges(records.len(), par);
        let parts: Vec<Vec<Option<LineCount>>> =
            ranges.iter().map(|&(s, e)| records[s..e].iter().map(copy).collect()).collect();
        let merged = merge_line_counts(parts);
        seen.push(merged.iter().map(|c| (c.path.clone(), c.additions, c.deletions)).collect());
        assert_eq!(lookup_count(&merged, "a"), (4, 4));
        assert_eq!(lookup_count(&merged, "b"), (2, 3));
    }
    for s in &seen {
        assert_eq!(s, &seen[0]);
    }
    assert_eq!(seen[0].len(), 3);
}
