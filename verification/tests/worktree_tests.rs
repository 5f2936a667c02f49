use openbot::worktree::{
    parse_path_list, plan_worktree, propagate_dirty_state, remove_worktree_action, trim_spaces,
    FileAction, PathKind, VcsAction, WorktreeGuard,
};

#[test]
fn worktree_naming() {
    let info = plan_worktree("/repo", "mybot", 1700000000, "main");
    assert_eq!(info.branch, "run/mybot-1700000000");
    assert_eq!(info.path, "/repo/.git/openbot-worktrees/mybot-1700000000");
    assert_eq!(info.base_branch, "main");
}

#[test]
fn guard_releases_once() {
    // The guard's removal command touches only the worktree directory; the
    // branch is never named, so it survives.
    let mut guard = WorktreeGuard::new("/repo/.git/openbot-worktrees/w".to_string());
    let first = guard.release();
    match first {
        Some(VcsAction::RemoveWorktree { path }) => {
            assert_eq!(path, "/repo/.git/openbot-worktrees/w")
        }
        _ => panic!("first release must yield the removal command"),
    }
    assert!(guard.release().is_none());
    match remove_worktree_action("/p") {
        VcsAction::RemoveWorktree { path } => assert_eq!(path, "/p"),
        _ => panic!("removal command expected"),
    }
}

#[test]
fn dirty_state_plan() {
    // A still-present modified file is copied; a source-deleted file is
    // removed from the worktree; a directory is left alone; untracked files
    // are copied.
    let modified = vec![
        ("src/lib.rs".to_string(), PathKind::File),
        ("gone.txt".to_string(), PathKind::Missing),
        ("somedir".to_string(), PathKind::Other),
    ];
    let untracked = vec![
        ("notes.md".to_string(), PathKind::File),
        ("builddir".to_string(), PathKind::Other),
    ];
    let plan = propagate_dirty_state(&modified, &untracked);
    assert_eq!(plan.len(), 3);
    assert!(matches!(&plan[0], FileAction::CopyFromSource { rel } if rel == "src/lib.rs"));
    assert!(matches!(&plan[1], FileAction::RemoveFromWorktree { rel } if rel == "gone.txt"));
    assert!(matches!(&plan[2], FileAction::CopyFromSource { rel } if rel == "notes.md"));
}

#[test]
fn path_list_parsing() {
    let out = " src/a.rs \n\nsrc/b.rs\r\n  \nREADME.md";
    let paths = parse_path_list(out);
    assert_eq!(paths, vec!["src/a.rs", "src/b.rs", "README.md"]);
    assert_eq!(trim_spaces("  x \t"), "x");
    assert_eq!(trim_spaces("\r\t "), "");
}
