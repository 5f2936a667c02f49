//! Isolated git-worktree management as verified planning: the library
//! decides branch names, which files to copy or remove, and which VCS
//! commands to run; an unverified shell runs the commands. The model shows
//! that removal never touches the branch, so uncommitted work survives.

use vstd::prelude::*;

verus! {

use crate::numfmt::dec_of;
use crate::numfmt::u64_to_string;
use crate::text::push_char;
use crate::text::split_on;
use crate::text::split_on_char;

/// Information about a created worktree.
pub struct WorktreeInfo {
    /// Filesystem path of the worktree directory.
    pub path: String,
    /// Name of the branch created for the run.
    pub branch: String,
    /// Branch the new branch was based on.
    pub base_branch: String,
}

/// `bot-ts`, the per-run suffix.
pub open spec fn spec_worktree_suffix(bot: Seq<char>, ts: int) -> Seq<char> {
    bot + seq!['-'] + dec_of(ts)
}

/// `run/bot-ts`, the run branch name.
pub open spec fn spec_worktree_branch(bot: Seq<char>, ts: int) -> Seq<char> {
    "run/"@ + spec_worktree_suffix(bot, ts)
}

/// The worktree directory, under the repository's VCS metadata directory.
pub open spec fn spec_worktree_dir(repo_root: Seq<char>, bot: Seq<char>, ts: int) -> Seq<char> {
    repo_root + "/.git/openbot-worktrees/"@ + spec_worktree_suffix(bot, ts)
}

/// Decide the path and branch names for a new isolated worktree.
pub fn plan_worktree(repo_root: &str, bot_name: &str, ts: u64, base_branch: &str) -> (r:
    WorktreeInfo)
    ensures
        r.path@ == spec_worktree_dir(repo_root@, bot_name@, ts as int),
        r.branch@ == spec_worktree_branch(bot_name@, ts as int),
        r.base_branch@ == base_branch@,
{
    let mut suffix = bot_name.to_owned();
    push_char(&mut suffix, '-');
    let digits = u64_to_string(ts);
    suffix.append(digits.as_str());
    proof {
        assert(suffix@ =~= spec_worktree_suffix(bot_name@, ts as int));
    }
    let mut branch = "run/".to_owned();
    branch.append(suffix.as_str());
    let mut path = repo_root.to_owned();
    path.append("/.git/openbot-worktrees/");
    path.append(suffix.as_str());
    proof {
        assert(path@ =~= spec_worktree_dir(repo_root@, bot_name@, ts as int));
    }
    WorktreeInfo { path, branch, base_branch: base_branch.to_owned() }
}

// ── VCS command model ───────────────────────────────────────────────────

/// A VCS command the library asks the shell to run.
pub enum VcsAction {
    /// Create a worktree at `path` on new branch `branch`.
    CreateWorktree { path: String, branch: String },
    /// Force-remove the worktree directory at `path`.
    RemoveWorktree { path: String },
    /// Check out `branch` in the main working tree.
    Checkout { branch: String },
    /// Fast-forward-only merge of `branch` into the current branch.
    MergeFastForward { branch: String },
}

/// The mathematical value of a VCS command.
pub ghost enum VcsActionV {
    CreateWorktree { path: Seq<char>, branch: Seq<char> },
    RemoveWorktree { path: Seq<char> },
    Checkout { branch: Seq<char> },
    MergeFastForward { branch: Seq<char> },
}

impl View for VcsAction {
    type V = VcsActionV;

    open spec fn view(&self) -> VcsActionV {
        match self {
            VcsAction::CreateWorktree { path, branch } => VcsActionV::CreateWorktree {
                path: path@,
                branch: branch@,
            },
            VcsAction::RemoveWorktree { path } => VcsActionV::RemoveWorktree { path: path@ },
            VcsAction::Checkout { branch } => VcsActionV::Checkout { branch: branch@ },
            VcsAction::MergeFastForward { branch } => VcsActionV::MergeFastForward {
                branch: branch@,
            },
        }
    }
}

impl DeepView for VcsAction {
    type V = VcsActionV;

    open spec fn deep_view(&self) -> VcsActionV {
        self.view()
    }
}

/// What the repository holds: its branches and its worktree directories.
pub ghost struct VcsV {
    pub branches: Set<Seq<char>>,
    pub worktrees: Set<Seq<char>>,
}

/// How each command changes the repository: creating a worktree adds a
/// branch and a directory; removing one deletes only the directory; checkout
/// and fast-forward merge move references and never create or delete a
/// branch.
pub open spec fn vcs_apply(v: VcsV, a: VcsActionV) -> VcsV {
    match a {
        VcsActionV::CreateWorktree { path, branch } => VcsV {
            branches: v.branches.insert(branch),
            worktrees: v.worktrees.insert(path),
        },
        VcsActionV::RemoveWorktree { path } => VcsV {
            branches: v.branches,
            worktrees: v.worktrees.remove(path),
        },
        VcsActionV::Checkout { .. } => v,
        VcsActionV::MergeFastForward { .. } => v,
    }
}

/// A whole command sequence, applied in order.
pub open spec fn vcs_apply_all(v: VcsV, actions: Seq<VcsActionV>) -> VcsV
    decreases actions.len(),
{
    if actions.len() == 0 {
        v
    } else {
        vcs_apply_all(vcs_apply(v, actions[0]), actions.drop_first())
    }
}

/// No command of the model ever deletes a branch.
pub proof fn lemma_no_action_deletes_branch(v: VcsV, a: VcsActionV)
    ensures
        forall|b: Seq<char>| v.branches.contains(b) ==> vcs_apply(v, a).branches.contains(b),
{
}

/// Nor does any command sequence: every branch present before the commands
/// run is still present after them.
pub proof fn lemma_actions_keep_branches(v: VcsV, actions: Seq<VcsActionV>)
    ensures
        forall|b: Seq<char>|
            v.branches.contains(b) ==> vcs_apply_all(v, actions).branches.contains(b),
    decreases actions.len(),
{
    if actions.len() > 0 {
        let v2 = vcs_apply(v, actions[0]);
        lemma_no_action_deletes_branch(v, actions[0]);
        lemma_actions_keep_branches(v2, actions.drop_first());
        assert(vcs_apply_all(v, actions) == vcs_apply_all(v2, actions.drop_first()));
    }
}

/// Worktree removal never deletes its branch: after create + remove, the
/// branch still exists.
pub proof fn lemma_remove_keeps_branch(v: VcsV, path: Seq<char>, branch: Seq<char>)
    ensures
        vcs_apply(
            vcs_apply(v, VcsActionV::CreateWorktree { path, branch }),
            VcsActionV::RemoveWorktree { path },
        ).branches.contains(branch),
        !vcs_apply(
            vcs_apply(v, VcsActionV::CreateWorktree { path, branch }),
            VcsActionV::RemoveWorktree { path },
        ).worktrees.contains(path),
{
}

// ── Worktree guard ──────────────────────────────────────────────────────

/// The removal command for a worktree directory.
pub fn remove_worktree_action(path: &str) -> (r: VcsAction)
    ensures
        r@ == (VcsActionV::RemoveWorktree { path: path@ }),
{
    VcsAction::RemoveWorktree { path: path.to_owned() }
}

/// Scoped handle for a created worktree: released exactly once, on any exit
/// path; release yields the removal command and never a branch deletion.
/// Created, then Removed, and never recreated.
pub struct WorktreeGuard {
    path: String,
    released: bool,
}

impl WorktreeGuard {
    /// The guarded directory.
    pub closed spec fn path_v(self) -> Seq<char> {
        self.path@
    }

    /// Whether the worktree directory has already been released.
    pub closed spec fn is_released(self) -> bool {
        self.released
    }

    /// Guard a freshly created worktree directory.
    pub fn new(path: String) -> (r: WorktreeGuard)
        ensures
            r.path_v() == path@,
            !r.is_released(),
    {
        WorktreeGuard { path, released: false }
    }

    /// Release the worktree: the first call yields the removal command, any
    /// later call yields nothing. The guard never leaves the released state.
    pub fn release(&mut self) -> (r: Option<VcsAction>)
        ensures
            final(self).is_released(),
            final(self).path_v() == old(self).path_v(),
            old(self).is_released() ==> r is None,
            !old(self).is_released() ==> (match r {
                Some(a) => a@ == (VcsActionV::RemoveWorktree { path: old(self).path_v() }),
                None => false,
            }),
    {
        if self.released {
            None
        } else {
            self.released = true;
            Some(remove_worktree_action(self.path.as_str()))
        }
    }
}

// ── Dirty-state propagation ─────────────────────────────────────────────

/// What a path names at the source tree.
pub enum PathKind {
    /// A regular file.
    File,
    /// Nothing: the path was deleted at the source.
    Missing,
    /// Something that is not a regular file (a directory, a link).
    Other,
}

/// One step of the propagation plan.
pub enum FileAction {
    /// Copy the file at `rel` from the source tree into the worktree.
    CopyFromSource { rel: String },
    /// Remove `rel` from the worktree.
    RemoveFromWorktree { rel: String },
}

/// The mathematical value of one plan step.
pub ghost enum FileActionV {
    CopyFromSource { rel: Seq<char> },
    RemoveFromWorktree { rel: Seq<char> },
}

impl View for FileAction {
    type V = FileActionV;

    open spec fn view(&self) -> FileActionV {
        match self {
            FileAction::CopyFromSource { rel } => FileActionV::CopyFromSource { rel: rel@ },
            FileAction::RemoveFromWorktree { rel } => FileActionV::RemoveFromWorktree {
                rel: rel@,
            },
        }
    }
}

impl DeepView for FileAction {
    type V = FileActionV;

    open spec fn deep_view(&self) -> FileActionV {
        self.view()
    }
}

/// The kind of one listed path, as a value.
pub ghost struct ListedPathV {
    pub rel: Seq<char>,
    pub kind: PathKind,
}

/// The plan for the modified-modified paths: a still-present file is copied,
/// a source-deleted path is removed from the worktree, anything else is left
/// alone.
pub open spec fn spec_tracked_plan(paths: Seq<ListedPathV>) -> Seq<FileActionV>
    decreases paths.len(),
{
    if paths.len() == 0 {
        Seq::empty()
    } else {
        let rest = spec_tracked_plan(paths.drop_last());
        let p = paths.last();
        match p.kind {
            PathKind::File => rest.push(FileActionV::CopyFromSource { rel: p.rel }),
            PathKind::Missing => rest.push(FileActionV::RemoveFromWorktree { rel: p.rel }),
            PathKind::Other => rest,
        }
    }
}

/// The plan for the untracked paths: files are copied, nothing else is
/// touched.
pub open spec fn spec_untracked_plan(paths: Seq<ListedPathV>) -> Seq<FileActionV>
    decreases paths.len(),
{
    if paths.len() == 0 {
        Seq::empty()
    } else {
        let rest = spec_untracked_plan(paths.drop_last());
        let p = paths.last();
        match p.kind {
            PathKind::File => rest.push(FileActionV::CopyFromSource { rel: p.rel }),
            _ => rest,
        }
    }
}

/// The whole propagation plan: modified modifications first, then untracked
/// files.
pub open spec fn spec_dirty_plan(modified: Seq<ListedPathV>, untracked: Seq<ListedPathV>) -> Seq<
    FileActionV,
> {
    spec_tracked_plan(modified) + spec_untracked_plan(untracked)
}

pub open spec fn listed_v(paths: Seq<(String, PathKind)>) -> Seq<ListedPathV> {
    Seq::new(paths.len(), |i: int| ListedPathV { rel: paths[i].0@, kind: paths[i].1 })
}

/// Plan dirty-state propagation: each step is executed best-effort by the
/// caller, so one I/O failure cannot abort the whole operation.
pub fn propagate_dirty_state(
    modified: &Vec<(String, PathKind)>,
    untracked: &Vec<(String, PathKind)>,
) -> (r: Vec<FileAction>)
    ensures
        r.deep_view() == spec_dirty_plan(listed_v(modified@), listed_v(untracked@)),
{
    let mut out: Vec<FileAction> = Vec::new();
    let mut i: usize = 0;
    proof {
        assert(listed_v(modified@).subrange(0, 0) =~= Seq::<ListedPathV>::empty());
        assert(out.deep_view() =~= spec_tracked_plan(listed_v(modified@).subrange(0, 0)));
    }
    while i < modified.len()
        invariant
            i <= modified.len(),
            out.deep_view() == spec_tracked_plan(listed_v(modified@).subrange(0, i as int)),
        decreases modified.len() - i,
    {
        proof {
            let pre = listed_v(modified@).subrange(0, i as int);
            let cur = listed_v(modified@).subrange(0, i as int + 1);
            assert(cur.drop_last() =~= pre);
            assert(cur.last() == listed_v(modified@)[i as int]);
        }
        match modified[i].1 {
            PathKind::File => {
                out.push(
                    FileAction::CopyFromSource {
                        rel: crate::workspace::clone_string(&modified[i].0),
                    },
                );
            },
            PathKind::Missing => {
                out.push(
                    FileAction::RemoveFromWorktree {
                        rel: crate::workspace::clone_string(&modified[i].0),
                    },
                );
            },
            PathKind::Other => {},
        }
        proof {
            assert(out.deep_view() =~= spec_tracked_plan(listed_v(modified@).subrange(0, i as int
                + 1)));
        }
        i = i + 1;
    }
    proof {
        assert(listed_v(modified@).subrange(0, modified@.len() as int) =~= listed_v(modified@));
    }
    let ghost done = out.deep_view();
    let mut j: usize = 0;
    proof {
        assert(listed_v(untracked@).subrange(0, 0) =~= Seq::<ListedPathV>::empty());
        assert(out.deep_view() =~= done + spec_untracked_plan(listed_v(untracked@).subrange(0, 0)));
    }
    while j < untracked.len()
        invariant
            j <= untracked.len(),
            done == spec_tracked_plan(listed_v(modified@)),
            out.deep_view() == done + spec_untracked_plan(
                listed_v(untracked@).subrange(0, j as int),
            ),
        decreases untracked.len() - j,
    {
        proof {
            let pre = listed_v(untracked@).subrange(0, j as int);
            let cur = listed_v(untracked@).subrange(0, j as int + 1);
            assert(cur.drop_last() =~= pre);
            assert(cur.last() == listed_v(untracked@)[j as int]);
        }
        match untracked[j].1 {
            PathKind::File => {
                out.push(
                    FileAction::CopyFromSource {
                        rel: crate::workspace::clone_string(&untracked[j].0),
                    },
                );
                proof {
                    let xv = FileActionV::CopyFromSource { rel: untracked@[j as int].0@ };
                    let pre_plan = spec_untracked_plan(listed_v(untracked@).subrange(0, j as int));
                    assert(untracked@[j as int].1 is File);
                    assert(listed_v(untracked@)[j as int].kind is File);
                    assert(spec_untracked_plan(listed_v(untracked@).subrange(0, j as int + 1))
                        == pre_plan.push(xv));
                    assert((done + pre_plan).push(xv) =~= done + pre_plan.push(xv));
                    assert(out.deep_view() =~= (done + pre_plan).push(xv));
                    assert(out.deep_view() =~= done + spec_untracked_plan(
                        listed_v(untracked@).subrange(0, j as int + 1),
                    ));
                }
            },
            PathKind::Missing => {
                proof {
                    assert(!(listed_v(untracked@)[j as int].kind is File));
                    assert(out.deep_view() =~= done + spec_untracked_plan(
                        listed_v(untracked@).subrange(0, j as int + 1),
                    ));
                }
            },
            PathKind::Other => {
                proof {
                    assert(!(listed_v(untracked@)[j as int].kind is File));
                    assert(out.deep_view() =~= done + spec_untracked_plan(
                        listed_v(untracked@).subrange(0, j as int + 1),
                    ));
                }
            },
        }
        j = j + 1;
    }
    proof {
        assert(listed_v(untracked@).subrange(0, untracked@.len() as int) =~= listed_v(untracked@));
    }
    out
}

// ── The propagation plan leaves the worktree equal to the source ────────

/// One plan step applied to a model of the trees: a copy writes the source
/// content (when the source still has the file), a remove deletes the path.
pub open spec fn apply_file_action(
    src: Map<Seq<char>, Seq<char>>,
    wt: Map<Seq<char>, Seq<char>>,
    a: FileActionV,
) -> Map<Seq<char>, Seq<char>> {
    match a {
        FileActionV::CopyFromSource { rel } => if src.contains_key(rel) {
            wt.insert(rel, src[rel])
        } else {
            wt
        },
        FileActionV::RemoveFromWorktree { rel } => wt.remove(rel),
    }
}

/// A whole plan applied in order.
pub open spec fn apply_file_actions(
    src: Map<Seq<char>, Seq<char>>,
    wt: Map<Seq<char>, Seq<char>>,
    actions: Seq<FileActionV>,
) -> Map<Seq<char>, Seq<char>>
    decreases actions.len(),
{
    if actions.len() == 0 {
        wt
    } else {
        apply_file_actions(src, apply_file_action(src, wt, actions[0]), actions.drop_first())
    }
}

/// The path a plan step touches.
pub open spec fn action_rel(a: FileActionV) -> Seq<char> {
    match a {
        FileActionV::CopyFromSource { rel } => rel,
        FileActionV::RemoveFromWorktree { rel } => rel,
    }
}

/// A plan step consistent with the source tree: copies are of present
/// files, removes are of absent paths.
pub open spec fn action_consistent(src: Map<Seq<char>, Seq<char>>, a: FileActionV) -> bool {
    match a {
        FileActionV::CopyFromSource { rel } => src.contains_key(rel),
        FileActionV::RemoveFromWorktree { rel } => !src.contains_key(rel),
    }
}

/// The worktree agrees with the source at `rel`: same content when the
/// source has the file, absent when it does not.
pub open spec fn agrees_at(
    src: Map<Seq<char>, Seq<char>>,
    wt: Map<Seq<char>, Seq<char>>,
    rel: Seq<char>,
) -> bool {
    if src.contains_key(rel) {
        wt.contains_key(rel) && wt[rel] == src[rel]
    } else {
        !wt.contains_key(rel)
    }
}

/// Once some consistent step touches `rel` (or the trees already agreed
/// there), the trees agree at `rel` after the plan runs.
pub proof fn lemma_apply_agrees(
    src: Map<Seq<char>, Seq<char>>,
    wt: Map<Seq<char>, Seq<char>>,
    actions: Seq<FileActionV>,
    rel: Seq<char>,
)
    requires
        forall|i: int| 0 <= i < actions.len() ==> action_consistent(src, #[trigger] actions[i]),
        (exists|i: int| 0 <= i < actions.len() && action_rel(#[trigger] actions[i]) == rel)
            || agrees_at(src, wt, rel),
    ensures
        agrees_at(src, apply_file_actions(src, wt, actions), rel),
    decreases actions.len(),
{
    if actions.len() == 0 {
    } else {
        let head = actions[0];
        let tail = actions.drop_first();
        let wt2 = apply_file_action(src, wt, head);
        assert(forall|i: int|
            0 <= i < tail.len() ==> action_consistent(src, #[trigger] tail[i])) by {
            assert(forall|i: int| 0 <= i < tail.len() ==> tail[i] == actions[i + 1]);
        }
        if action_rel(head) == rel {
            assert(agrees_at(src, wt2, rel));
            lemma_apply_agrees(src, wt2, tail, rel);
        } else {
            assert(agrees_at(src, wt, rel) ==> agrees_at(src, wt2, rel));
            if exists|i: int| 0 <= i < actions.len() && action_rel(#[trigger] actions[i]) == rel {
                let i = choose|i: int|
                    0 <= i < actions.len() && action_rel(#[trigger] actions[i]) == rel;
                assert(i >= 1);
                assert(tail[i - 1] == actions[i]);
                assert(exists|j: int| 0 <= j < tail.len() && action_rel(#[trigger] tail[j]) == rel);
            }
            lemma_apply_agrees(src, wt2, tail, rel);
        }
    }
}

/// Whether a listed path's kind tells the truth about the source tree.
pub open spec fn kinds_consistent(src: Map<Seq<char>, Seq<char>>, paths: Seq<ListedPathV>) -> bool {
    forall|i: int|
        0 <= i < paths.len() ==> (match (#[trigger] paths[i]).kind {
            PathKind::File => src.contains_key(paths[i].rel),
            PathKind::Missing => !src.contains_key(paths[i].rel),
            PathKind::Other => !src.contains_key(paths[i].rel),
        })
}

/// Every step of the propagation plan is consistent with the source, and
/// every listed file or deleted path has a step.
pub proof fn lemma_tracked_plan_consistent(src: Map<Seq<char>, Seq<char>>, paths: Seq<ListedPathV>)
    requires
        kinds_consistent(src, paths),
    ensures
        forall|i: int|
            0 <= i < spec_tracked_plan(paths).len() ==> action_consistent(
                src,
                #[trigger] spec_tracked_plan(paths)[i],
            ),
        forall|k: int|
            0 <= k < paths.len() && !((#[trigger] paths[k]).kind matches PathKind::Other) ==> exists|
                i: int,
            |
                0 <= i < spec_tracked_plan(paths).len() && action_rel(
                    #[trigger] spec_tracked_plan(paths)[i],
                ) == paths[k].rel,
    decreases paths.len(),
{
    if paths.len() > 0 {
        let hd = paths.drop_last();
        assert(forall|i: int| 0 <= i < hd.len() ==> hd[i] == paths[i]);
        lemma_tracked_plan_consistent(src, hd);
        let rest = spec_tracked_plan(hd);
        let whole = spec_tracked_plan(paths);
        let p = paths.last();
        assert forall|k: int|
            0 <= k < paths.len() && !((#[trigger] paths[k]).kind matches PathKind::Other) implies
        exists|i: int|
            0 <= i < whole.len() && action_rel(#[trigger] whole[i]) == paths[k].rel by {
            if k < paths.len() - 1 {
                let i = choose|i: int|
                    0 <= i < rest.len() && action_rel(#[trigger] rest[i]) == hd[k].rel;
                assert(whole[i] == rest[i]);
                assert(action_rel(whole[i]) == paths[k].rel);
            } else {
                match p.kind {
                    PathKind::File => {
                        assert(action_rel(whole[whole.len() - 1]) == p.rel);
                    },
                    PathKind::Missing => {
                        assert(action_rel(whole[whole.len() - 1]) == p.rel);
                    },
                    PathKind::Other => {},
                }
            }
        }
    }
}

/// The same, for the untracked file plan.
pub proof fn lemma_untracked_plan_consistent(
    src: Map<Seq<char>, Seq<char>>,
    paths: Seq<ListedPathV>,
)
    requires
        kinds_consistent(src, paths),
    ensures
        forall|i: int|
            0 <= i < spec_untracked_plan(paths).len() ==> action_consistent(
                src,
                #[trigger] spec_untracked_plan(paths)[i],
            ),
        forall|k: int|
            0 <= k < paths.len() && ((#[trigger] paths[k]).kind matches PathKind::File) ==> exists|
                i: int,
            |
                0 <= i < spec_untracked_plan(paths).len() && action_rel(
                    #[trigger] spec_untracked_plan(paths)[i],
                ) == paths[k].rel,
    decreases paths.len(),
{
    if paths.len() > 0 {
        let hd = paths.drop_last();
        assert(forall|i: int| 0 <= i < hd.len() ==> hd[i] == paths[i]);
        lemma_untracked_plan_consistent(src, hd);
        let rest = spec_untracked_plan(hd);
        let whole = spec_untracked_plan(paths);
        let p = paths.last();
        assert forall|k: int|
            0 <= k < paths.len() && ((#[trigger] paths[k]).kind matches PathKind::File) implies
        exists|i: int|
            0 <= i < whole.len() && action_rel(#[trigger] whole[i]) == paths[k].rel by {
            if k < paths.len() - 1 {
                let i = choose|i: int|
                    0 <= i < rest.len() && action_rel(#[trigger] rest[i]) == hd[k].rel;
                assert(whole[i] == rest[i]);
                assert(action_rel(whole[i]) == paths[k].rel);
            } else {
                assert(action_rel(whole[whole.len() - 1]) == p.rel);
            }
        }
    }
}

/// Dirty-state propagation leaves the worktree identical to the source on
/// the modified-modified and untracked paths: a still-present file has the
/// source's content, and a source-deleted modified path is absent.
pub proof fn lemma_dirty_plan_propagates(
    src: Map<Seq<char>, Seq<char>>,
    wt: Map<Seq<char>, Seq<char>>,
    modified: Seq<ListedPathV>,
    untracked: Seq<ListedPathV>,
    rel: Seq<char>,
)
    requires
        kinds_consistent(src, modified),
        kinds_consistent(src, untracked),
        (exists|k: int|
            0 <= k < modified.len() && (#[trigger] modified[k]).rel == rel && !(modified[k].kind
                matches PathKind::Other)) || (exists|k: int|
            0 <= k < untracked.len() && (#[trigger] untracked[k]).rel == rel && (untracked[k].kind
                matches PathKind::File)),
    ensures
        agrees_at(src, apply_file_actions(src, wt, spec_dirty_plan(modified, untracked)), rel),
{
    let plan = spec_dirty_plan(modified, untracked);
    let tp = spec_tracked_plan(modified);
    let up = spec_untracked_plan(untracked);
    lemma_tracked_plan_consistent(src, modified);
    lemma_untracked_plan_consistent(src, untracked);
    assert(forall|i: int| 0 <= i < plan.len() ==> action_consistent(src, #[trigger] plan[i])) by {
        assert(forall|i: int| 0 <= i < tp.len() ==> plan[i] == tp[i]);
        assert(forall|i: int| tp.len() <= i < plan.len() ==> plan[i] == up[i - tp.len()]);
    }
    assert(exists|i: int| 0 <= i < plan.len() && action_rel(#[trigger] plan[i]) == rel) by {
        if exists|k: int|
            0 <= k < modified.len() && (#[trigger] modified[k]).rel == rel && !(modified[k].kind
                matches PathKind::Other) {
            let k = choose|k: int|
                0 <= k < modified.len() && (#[trigger] modified[k]).rel == rel && !(modified[k].kind
                    matches PathKind::Other);
            let i = choose|i: int| 0 <= i < tp.len() && action_rel(#[trigger] tp[i]) == rel;
            assert(plan[i] == tp[i]);
            assert(action_rel(plan[i]) == rel);
        } else {
            let k = choose|k: int|
                0 <= k < untracked.len() && (#[trigger] untracked[k]).rel == rel && (
                untracked[k].kind matches PathKind::File);
            let i = choose|i: int| 0 <= i < up.len() && action_rel(#[trigger] up[i]) == rel;
            assert(plan[tp.len() + i] == up[i]);
            assert(action_rel(plan[tp.len() + i]) == rel);
        }
    }
    lemma_apply_agrees(src, wt, plan, rel);
}

// ── Path list parsing ───────────────────────────────────────────────────

pub open spec fn is_space(c: char) -> bool {
    c == ' ' || c == '\t' || c == '\r'
}

/// Leading and trailing whitespace dropped.
pub open spec fn spec_trim(s: Seq<char>) -> Seq<char>
    decreases s.len(),
{
    if s.len() == 0 {
        s
    } else if is_space(s[0]) {
        spec_trim(s.subrange(1, s.len() as int))
    } else if is_space(s.last()) {
        spec_trim(s.drop_last())
    } else {
        s
    }
}

/// Drop leading and trailing spaces, tabs and carriage returns.
#[verifier::rlimit(60)]
pub fn trim_spaces(s: &str) -> (r: String)
    ensures
        r@ == spec_trim(s@),
{
    let n = s.unicode_len();
    let mut lo: usize = 0;
    let mut hi: usize = n;
    proof {
        assert(s@.subrange(0, n as int) =~= s@);
    }
    while lo < hi && is_space_char(s.get_char(lo))
        invariant
            0 <= lo <= hi <= n,
            n == s@.len(),
            spec_trim(s@) == spec_trim(s@.subrange(lo as int, hi as int)),
            forall|j: int| 0 <= j < lo ==> is_space(#[trigger] s@[j]),
            hi < n ==> is_space(s@[hi as int]),
        decreases hi - lo,
    {
        proof {
            let seg = s@.subrange(lo as int, hi as int);
            assert(seg.subrange(1, seg.len() as int) =~= s@.subrange(lo as int + 1, hi as int));
        }
        lo = lo + 1;
    }
    while lo < hi && is_space_char(s.get_char(hi - 1))
        invariant
            0 <= lo <= hi <= n,
            n == s@.len(),
            spec_trim(s@) == spec_trim(s@.subrange(lo as int, hi as int)),
            lo < hi ==> !is_space(s@[lo as int]),
        decreases hi - lo,
    {
        proof {
            let seg = s@.subrange(lo as int, hi as int);
            assert(seg.drop_last() =~= s@.subrange(lo as int, hi as int - 1));
            assert(seg[0] == s@[lo as int]);
        }
        hi = hi - 1;
    }
    proof {
        let seg = s@.subrange(lo as int, hi as int);
        if seg.len() > 0 {
            assert(seg[0] == s@[lo as int]);
            assert(seg.last() == s@[hi - 1]);
        }
        assert(spec_trim(seg) == seg);
    }
    s.substring_char(lo, hi).to_owned()
}

fn is_space_char(c: char) -> (r: bool)
    ensures
        r == is_space(c),
{
    c == ' ' || c == '\t' || c == '\r'
}

/// The nonempty trimmed lines of a command's output.
pub open spec fn spec_path_list(out: Seq<char>) -> Seq<Seq<char>>
    decreases out.len(),
{
    spec_path_list_lines(split_on(out, '\n'))
}

pub open spec fn spec_path_list_lines(lines: Seq<Seq<char>>) -> Seq<Seq<char>>
    decreases lines.len(),
{
    if lines.len() == 0 {
        Seq::empty()
    } else {
        let rest = spec_path_list_lines(lines.drop_last());
        let t = spec_trim(lines.last());
        if t.len() == 0 {
            rest
        } else {
            rest.push(t)
        }
    }
}

/// Parse a newline-separated path list: lines trimmed, empties dropped.
pub fn parse_path_list(out: &str) -> (r: Vec<String>)
    ensures
        r.deep_view() == spec_path_list(out@),
{
    let lines = split_on_char(out, '\n');
    let mut paths: Vec<String> = Vec::new();
    let mut i: usize = 0;
    proof {
        assert(lines.deep_view().subrange(0, 0) =~= Seq::<Seq<char>>::empty());
        assert(paths.deep_view() =~= spec_path_list_lines(lines.deep_view().subrange(0, 0)));
    }
    while i < lines.len()
        invariant
            i <= lines.len(),
            lines.deep_view().len() == lines.len(),
            paths.deep_view() == spec_path_list_lines(lines.deep_view().subrange(0, i as int)),
        decreases lines.len() - i,
    {
        proof {
            let pre = lines.deep_view().subrange(0, i as int);
            let cur = lines.deep_view().subrange(0, i as int + 1);
            assert(cur.drop_last() =~= pre);
            assert(cur.last() == lines.deep_view()[i as int]);
        }
        let t = trim_spaces(lines[i].as_str());
        if !t.as_str().is_empty() {
            paths.push(t);
        }
        proof {
            assert(paths.deep_view() =~= spec_path_list_lines(lines.deep_view().subrange(0, i as int
                + 1)));
        }
        i = i + 1;
    }
    proof {
        assert(lines.deep_view().subrange(0, lines.deep_view().len() as int) =~=
        lines.deep_view());
    }
    paths
}

} // verus!
