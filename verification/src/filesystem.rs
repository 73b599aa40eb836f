//! A model of the file system that apply changes and inspection reads, and
//! the laws that tie the two together: what apply sets up, inspection then
//! reports as in place.

use vstd::prelude::*;

use crate::actions::{
    apply_from, backup_suffix, copy_apply, plan_apply, symlink_apply, ApplyOperationOutcomeView, ApplyReplies,
    ApplyRequestView, ApplyStep, ApplyWalk,
};
use crate::errors::ProgramErrorView;
use crate::intent::ConflictPolicy;
use crate::operation::{
    blocking_diagnostics, operation_of, FileOperationView, OperationActionView, OperationEntryView,
    OperationPlanView,
};
use crate::status::{
    copy_inspection, outcomes_from, plan_inspection, symlink_inspection, CopyInspectionState, InspectionReplies,
    InspectionRequestView, InspectionWalk, OperationInspectionOutcomeView, PathKind,
    SymlinkInspectionStateView,
};
use crate::text::path_parent;

verus! {

/// What a path holds.
pub enum FsNode {
    Directory,
    File { content: u64 },
    Symlink { target: Seq<char> },
}

/// Paths and what each holds.
pub type Fs = Map<Seq<char>, FsNode>;

/// What is at a path, as a look that does not follow a final symlink sees
/// it.
pub open spec fn node_kind(fs: Fs, path: Seq<char>) -> PathKind {
    if !fs.contains_key(path) {
        PathKind::Missing
    } else {
        match fs[path] {
            FsNode::Directory => PathKind::Other,
            FsNode::File { .. } => PathKind::File,
            FsNode::Symlink { .. } => PathKind::Symlink,
        }
    }
}

/// The file system after a change has been carried out successfully.
pub open spec fn after_change(fs: Fs, change: ApplyRequestView) -> Fs {
    match change {
        ApplyRequestView::EnsureParentDirectory(path) => match path_parent(path) {
            Some(parent) => if fs.contains_key(parent) {
                fs
            } else {
                fs.insert(parent, FsNode::Directory)
            },
            None => fs,
        },
        ApplyRequestView::CreateSymlink { source, target } => fs.insert(
            target,
            FsNode::Symlink { target: source },
        ),
        ApplyRequestView::RemovePath(path) => fs.remove(path),
        ApplyRequestView::MoveToBackup { target, backup } => if fs.contains_key(target) {
            fs.insert(backup, fs[target]).remove(target)
        } else {
            fs
        },
        ApplyRequestView::CopyFile { source, target } => if fs.contains_key(source) {
            match fs[source] {
                FsNode::File { content } => fs.insert(target, FsNode::File { content }),
                _ => fs,
            }
        } else {
            fs
        },
        _ => fs,
    }
}

/// The file system after the changes, in order.
pub open spec fn after_changes(fs: Fs, changes: Seq<ApplyRequestView>) -> Fs
    decreases changes.len(),
{
    if changes.len() == 0 {
        fs
    } else {
        after_changes(after_change(fs, changes[0]), changes.drop_first())
    }
}

/// The changes applying a symlink operation makes to `fs` when each of
/// them succeeds: the parent directory when asked for, then, unless an
/// existing target is kept, the old target removed or moved to its backup
/// and the link created.
pub open spec fn symlink_changes(fs: Fs, op: FileOperationView) -> Seq<ApplyRequestView> {
    let prepare = if op.mkdir {
        seq![ApplyRequestView::EnsureParentDirectory(op.target)]
    } else {
        Seq::empty()
    };
    let place = seq![ApplyRequestView::CreateSymlink { source: op.source, target: op.target }];
    if !fs.contains_key(op.target) {
        prepare + place
    } else {
        match op.conflict_policy {
            ConflictPolicy::Skip => prepare,
            ConflictPolicy::Overwrite => prepare + seq![ApplyRequestView::RemovePath(op.target)]
                + place,
            ConflictPolicy::OverwriteWithBackup => prepare + seq![
                ApplyRequestView::MoveToBackup {
                    target: op.target,
                    backup: op.target + backup_suffix(),
                },
            ] + place,
        }
    }
}

/// The results `replies` holds from `walk` on are those `fs` gives to
/// applying a symlink operation: each change succeeds, and the probes of the
/// target (and of its backup path, when the target is moved aside) say
/// whether `fs` holds them.
pub open spec fn apply_answers_follow(fs: Fs, op: FileOperationView, replies: ApplyReplies, walk: ApplyWalk) -> bool {
    let changes = symlink_changes(fs, op);
    &&& walk.changes + changes.len() <= replies.changes@.len()
    &&& forall|k: int|
        walk.changes <= k < walk.changes + changes.len() ==> #[trigger] replies.changes@[k] is Ok
    &&& walk.existence < replies.existence@.len()
    &&& replies.existence@[walk.existence as int] matches Ok(b) && b == fs.contains_key(op.target)
    &&& (fs.contains_key(op.target) && op.conflict_policy == ConflictPolicy::OverwriteWithBackup)
        ==> (walk.existence + 1 < replies.existence@.len() && (replies.existence@[walk.existence
        + 1int] matches Ok(b) && b == fs.contains_key(op.target + backup_suffix())))
}

/// The answers `replies` holds from `walk` on are those `fs` gives to
/// inspecting the target of an operation.
pub open spec fn inspection_answers_follow(fs: Fs, op: FileOperationView, replies: InspectionReplies, walk: InspectionWalk) -> bool {
    &&& walk.kinds < replies.kinds@.len()
    &&& replies.kinds@[walk.kinds as int] matches Ok(k) && k == node_kind(fs, op.target)
    &&& (fs.contains_key(op.target) && fs[op.target] is Symlink) ==> (walk.symlink_targets
        < replies.symlink_targets@.len() && (replies.symlink_targets@[walk.symlink_targets as int] matches Ok(
        t,
    ) && t@ == fs[op.target]->target))
}

proof fn lemma_parent_differs(path: Seq<char>)
    ensures
        path_parent(path) matches Some(parent) ==> parent.len() < path.len(),
{
    crate::text::lemma_path_parent_shorter(path);
}

proof fn lemma_after_changes_concat(fs: Fs, first: Seq<ApplyRequestView>, second: Seq<ApplyRequestView>)
    ensures
        after_changes(fs, first + second) == after_changes(after_changes(fs, first), second),
    decreases first.len(),
{
    if first.len() == 0 {
        assert(first + second =~= second);
    } else {
        assert((first + second).drop_first() =~= first.drop_first() + second);
        lemma_after_changes_concat(after_change(fs, first[0]), first.drop_first(), second);
    }
}

proof fn lemma_after_single(fs: Fs, change: ApplyRequestView)
    ensures
        after_changes(fs, seq![change]) == after_change(fs, change),
{
    assert(seq![change].drop_first() =~= Seq::<ApplyRequestView>::empty());
    assert(after_changes(after_change(fs, change), Seq::empty()) == after_change(fs, change));
}

/// Apply sets up what inspection checks: applying a symlink operation whose
/// changes all succeed either keeps an existing target as it was (under the
/// skip policy) or reports the link as applied, and an inspection of the
/// file system it leaves then finds the link pointing at the source.
pub proof fn lemma_applied_symlink_inspects_correct(
    fs: Fs,
    op: FileOperationView,
    replies: ApplyReplies,
    walk: ApplyWalk,
    later: InspectionReplies,
    later_walk: InspectionWalk,
)
    requires
        apply_answers_follow(fs, op, replies, walk),
        (fs.contains_key(op.target) && op.conflict_policy == ConflictPolicy::OverwriteWithBackup)
            ==> !fs.contains_key(op.target + backup_suffix()),
        inspection_answers_follow(after_changes(fs, symlink_changes(fs, op)), op, later, later_walk),
    ensures
        if fs.contains_key(op.target) && op.conflict_policy == ConflictPolicy::Skip {
            &&& symlink_apply(replies, walk, op) matches Ok((Ok(outcome), _))
            &&& outcome == ApplyOperationOutcomeView::SkippedExistingTarget(OperationActionView::Symlink(op))
            &&& after_changes(fs, symlink_changes(fs, op)).contains_key(op.target)
            &&& after_changes(fs, symlink_changes(fs, op))[op.target] == fs[op.target]
        } else {
            &&& symlink_apply(replies, walk, op) matches Ok((Ok(outcome), w))
            &&& outcome == ApplyOperationOutcomeView::Applied(OperationActionView::Symlink(op))
            &&& w.changes == walk.changes + symlink_changes(fs, op).len()
            &&& symlink_inspection(later, later_walk, op) matches Ok((Ok(inspection), _))
            &&& inspection.state == SymlinkInspectionStateView::Correct
        },
{
    reveal_strlit(".orig");
    let changes = symlink_changes(fs, op);
    let prepare = if op.mkdir {
        seq![ApplyRequestView::EnsureParentDirectory(op.target)]
    } else {
        Seq::<ApplyRequestView>::empty()
    };
    let place = seq![ApplyRequestView::CreateSymlink { source: op.source, target: op.target }];
    let backup = op.target + backup_suffix();
    lemma_parent_differs(op.target);
    // Preparing the parent directory touches neither the target nor its backup.
    let prepared = after_changes(fs, prepare);
    if op.mkdir {
        lemma_after_single(fs, ApplyRequestView::EnsureParentDirectory(op.target));
        assert(prepared.contains_key(op.target) == fs.contains_key(op.target));
        assert(prepared.contains_key(op.target) ==> prepared[op.target] == fs[op.target]);
        assert(prepared.contains_key(backup) == fs.contains_key(backup));
        assert(walk.changes < replies.changes@.len());
        assert(replies.changes@[walk.changes as int] is Ok);
    } else {
        assert(prepared == fs);
    }
    let w1 = ApplyWalk { changes: walk.changes + prepare.len(), ..walk };
    let w2 = ApplyWalk { existence: walk.existence + 1, ..w1 };
    if !fs.contains_key(op.target) {
        assert(changes == prepare + place);
        lemma_after_changes_concat(fs, prepare, place);
        lemma_after_single(prepared, place[0]);
        assert(replies.changes@[w2.changes as int] is Ok);
    } else {
        match op.conflict_policy {
            ConflictPolicy::Skip => {
                assert(changes == prepare);
            },
            ConflictPolicy::Overwrite => {
                let remove = seq![ApplyRequestView::RemovePath(op.target)];
                assert(changes == prepare + remove + place);
                lemma_after_changes_concat(fs, prepare + remove, place);
                lemma_after_changes_concat(fs, prepare, remove);
                lemma_after_single(prepared, remove[0]);
                lemma_after_single(after_changes(fs, prepare + remove), place[0]);
                assert(replies.changes@[w2.changes as int] is Ok);
                assert(replies.changes@[w2.changes + 1int] is Ok);
            },
            ConflictPolicy::OverwriteWithBackup => {
                let moved = seq![ApplyRequestView::MoveToBackup { target: op.target, backup }];
                assert(changes == prepare + moved + place);
                lemma_after_changes_concat(fs, prepare + moved, place);
                lemma_after_changes_concat(fs, prepare, moved);
                lemma_after_single(prepared, moved[0]);
                lemma_after_single(after_changes(fs, prepare + moved), place[0]);
                assert(replies.changes@[w2.changes as int] is Ok);
                assert(replies.changes@[w2.changes + 1int] is Ok);
            },
        }
    }
}

/// The content of the regular file at `path`, if a regular file is there.
pub open spec fn file_content(fs: Fs, path: Seq<char>) -> Option<u64> {
    if fs.contains_key(path) && fs[path] is File {
        Some(fs[path]->content)
    } else {
        None
    }
}

/// Whether the target of a copy already holds the source's content.
pub open spec fn copy_in_place(fs: Fs, op: FileOperationView) -> bool {
    file_content(fs, op.target) is Some && file_content(fs, op.target) == file_content(fs, op.source)
}

/// The changes applying a copy operation makes to `fs` when each of them
/// succeeds: the parent directory when asked for, then, unless the target
/// already matches or an existing one is kept, the old target removed or
/// moved to its backup and the source copied.
pub open spec fn copy_changes(fs: Fs, op: FileOperationView) -> Seq<ApplyRequestView> {
    let prepare = if op.mkdir {
        seq![ApplyRequestView::EnsureParentDirectory(op.target)]
    } else {
        Seq::empty()
    };
    let place = seq![ApplyRequestView::CopyFile { source: op.source, target: op.target }];
    if !fs.contains_key(op.target) {
        prepare + place
    } else if copy_in_place(fs, op) {
        prepare
    } else {
        match op.conflict_policy {
            ConflictPolicy::Skip => prepare,
            ConflictPolicy::Overwrite => prepare + seq![ApplyRequestView::RemovePath(op.target)]
                + place,
            ConflictPolicy::OverwriteWithBackup => prepare + seq![
                ApplyRequestView::MoveToBackup {
                    target: op.target,
                    backup: op.target + backup_suffix(),
                },
            ] + place,
        }
    }
}

/// The answers `replies` holds from `walk` on are those `fs` gives to
/// comparing a copy with its source: what is at the target, then, for a
/// regular file, the digests of the source and of the target.
pub open spec fn copy_inspection_answers_follow(
    fs: Fs,
    op: FileOperationView,
    replies: InspectionReplies,
    walk: InspectionWalk,
) -> bool {
    &&& walk.kinds < replies.kinds@.len()
    &&& replies.kinds@[walk.kinds as int] matches Ok(k) && k == node_kind(fs, op.target)
    &&& node_kind(fs, op.target) == PathKind::File ==> {
        &&& walk.digests + 1 < replies.digests@.len()
        &&& replies.digests@[walk.digests as int] matches Ok(d) && Some(d) == file_content(fs, op.source)
        &&& replies.digests@[walk.digests + 1int] matches Ok(d) && Some(d) == file_content(fs, op.target)
    }
}

/// The results `replies` holds from `walk` on are those `fs` gives to
/// applying a copy operation: each change succeeds, the probes of the
/// target (and of its backup path) say whether `fs` holds them, and the
/// comparison of an existing target reads `fs`.
pub open spec fn copy_answers_follow(fs: Fs, op: FileOperationView, replies: ApplyReplies, walk: ApplyWalk) -> bool {
    let changes = copy_changes(fs, op);
    &&& walk.changes + changes.len() <= replies.changes@.len()
    &&& forall|k: int|
        walk.changes <= k < walk.changes + changes.len() ==> #[trigger] replies.changes@[k] is Ok
    &&& walk.existence < replies.existence@.len()
    &&& replies.existence@[walk.existence as int] matches Ok(b) && b == fs.contains_key(op.target)
    &&& fs.contains_key(op.target) ==> copy_inspection_answers_follow(
        fs,
        op,
        replies.inspection,
        walk.inspection,
    )
    &&& (fs.contains_key(op.target) && !copy_in_place(fs, op) && op.conflict_policy
        == ConflictPolicy::OverwriteWithBackup) ==> (walk.existence + 1 < replies.existence@.len()
        && (replies.existence@[walk.existence + 1int] matches Ok(b) && b == fs.contains_key(
        op.target + backup_suffix(),
    )))
}

/// Apply sets up what inspection checks, for copies: applying a copy of a
/// regular file whose changes all succeed either keeps an existing,
/// different target as it was (under the skip policy), or leaves the target
/// holding the source's content, already there or copied, and an
/// inspection of the file system it leaves then finds the copy in place.
pub proof fn lemma_applied_copy_inspects_correct(
    fs: Fs,
    op: FileOperationView,
    replies: ApplyReplies,
    walk: ApplyWalk,
    later: InspectionReplies,
    later_walk: InspectionWalk,
)
    requires
        file_content(fs, op.source) is Some,
        op.source != op.target + backup_suffix(),
        copy_answers_follow(fs, op, replies, walk),
        (fs.contains_key(op.target) && !copy_in_place(fs, op) && op.conflict_policy
            == ConflictPolicy::OverwriteWithBackup) ==> !fs.contains_key(op.target + backup_suffix()),
        copy_inspection_answers_follow(after_changes(fs, copy_changes(fs, op)), op, later, later_walk),
    ensures
        if fs.contains_key(op.target) && !copy_in_place(fs, op) && op.conflict_policy
            == ConflictPolicy::Skip {
            &&& copy_apply(replies, walk, op) matches Ok((Ok(outcome), _))
            &&& outcome == ApplyOperationOutcomeView::SkippedExistingTarget(OperationActionView::Copy(op))
            &&& after_changes(fs, copy_changes(fs, op))[op.target] == fs[op.target]
        } else {
            &&& copy_apply(replies, walk, op) matches Ok((Ok(outcome), _))
            &&& outcome == if fs.contains_key(op.target) && copy_in_place(fs, op) {
                ApplyOperationOutcomeView::SkippedExistingTarget(OperationActionView::Copy(op))
            } else {
                ApplyOperationOutcomeView::Applied(OperationActionView::Copy(op))
            }
            &&& copy_inspection(later, later_walk, op) matches Ok((Ok(inspection), _))
            &&& inspection.state == CopyInspectionState::Correct
        },
{
    reveal_strlit(".orig");
    let changes = copy_changes(fs, op);
    let prepare = if op.mkdir {
        seq![ApplyRequestView::EnsureParentDirectory(op.target)]
    } else {
        Seq::<ApplyRequestView>::empty()
    };
    let place = seq![ApplyRequestView::CopyFile { source: op.source, target: op.target }];
    let backup = op.target + backup_suffix();
    lemma_parent_differs(op.target);
    let prepared = after_changes(fs, prepare);
    if op.mkdir {
        lemma_after_single(fs, ApplyRequestView::EnsureParentDirectory(op.target));
        assert(replies.changes@[walk.changes as int] is Ok);
    } else {
        assert(prepared == fs);
    }
    assert(prepared.contains_key(op.target) == fs.contains_key(op.target));
    assert(prepared.contains_key(op.target) ==> prepared[op.target] == fs[op.target]);
    assert(prepared.contains_key(backup) == fs.contains_key(backup));
    assert(prepared[op.source] == fs[op.source]);
    let content = file_content(fs, op.source)->0;
    let w1 = ApplyWalk { changes: walk.changes + prepare.len(), ..walk };
    let w2 = ApplyWalk { existence: walk.existence + 1, ..w1 };
    if !fs.contains_key(op.target) {
        assert(changes == prepare + place);
        lemma_after_changes_concat(fs, prepare, place);
        lemma_after_single(prepared, place[0]);
        assert(replies.changes@[w2.changes as int] is Ok);
    } else if copy_in_place(fs, op) {
        assert(changes == prepare);
    } else {
        match op.conflict_policy {
            ConflictPolicy::Skip => {
                assert(changes == prepare);
            },
            ConflictPolicy::Overwrite => {
                let remove = seq![ApplyRequestView::RemovePath(op.target)];
                assert(changes == prepare + remove + place);
                lemma_after_changes_concat(fs, prepare + remove, place);
                lemma_after_changes_concat(fs, prepare, remove);
                lemma_after_single(prepared, remove[0]);
                lemma_after_single(after_changes(fs, prepare + remove), place[0]);
                assert(replies.changes@[w2.changes as int] is Ok);
                assert(replies.changes@[w2.changes + 1int] is Ok);
            },
            ConflictPolicy::OverwriteWithBackup => {
                let moved = seq![ApplyRequestView::MoveToBackup { target: op.target, backup }];
                assert(changes == prepare + moved + place);
                lemma_after_changes_concat(fs, prepare + moved, place);
                lemma_after_changes_concat(fs, prepare, moved);
                lemma_after_single(prepared, moved[0]);
                lemma_after_single(after_changes(fs, prepare + moved), place[0]);
                assert(replies.changes@[w2.changes as int] is Ok);
                assert(replies.changes@[w2.changes + 1int] is Ok);
            },
        }
    }
}

/// Apply changes nothing while a planned source is unavailable: whatever
/// the results at hand, it is refused at once with the diagnostics.
pub proof fn lemma_blocked_plan_changes_nothing(plan: OperationPlanView, replies: ApplyReplies)
    requires
        blocking_diagnostics(plan.entries).len() > 0,
    ensures
        plan_apply(plan, replies) == Ok::<_, ApplyRequestView>(
            Err::<Seq<ApplyOperationOutcomeView>, _>(
                ProgramErrorView::OperationPlanBlocked { diagnostics: blocking_diagnostics(plan.entries) },
            ),
        ),
{
}


// ---------------------------------------------------------------------------
// A whole plan
// ---------------------------------------------------------------------------

/// The operation apply carries out for an entry: that of an action entry
/// that is not skipped.
pub open spec fn carried_out(entry: OperationEntryView) -> Option<OperationActionView> {
    match entry {
        OperationEntryView::Action(a) => if a.skip_reason is None {
            Some(a.action)
        } else {
            None
        },
        OperationEntryView::Issue(_) => None,
    }
}

/// The path an existing target of an operation is moved to.
pub open spec fn backup_of(action: OperationActionView) -> Seq<char> {
    operation_of(action).target + backup_suffix()
}

/// The changes applying an operation makes to `fs` when each succeeds.
pub open spec fn action_changes(fs: Fs, action: OperationActionView) -> Seq<ApplyRequestView> {
    match action {
        OperationActionView::Symlink(op) => symlink_changes(fs, op),
        OperationActionView::Copy(op) => copy_changes(fs, op),
    }
}

/// The file system after an operation's changes all succeeded.
pub open spec fn after_action(fs: Fs, action: OperationActionView) -> Fs {
    after_changes(fs, action_changes(fs, action))
}

/// The file system as entry `k` of a plan finds it: every operation before
/// it carried out, each change succeeding.
pub open spec fn fs_before(fs: Fs, entries: Seq<OperationEntryView>, k: int) -> Fs
    decreases k,
{
    if k <= 0 {
        fs
    } else {
        let earlier = fs_before(fs, entries, k - 1);
        match carried_out(entries[k - 1]) {
            Some(action) => after_action(earlier, action),
            None => earlier,
        }
    }
}

/// Whether a change can alter what is at `path` when something is there:
/// only by placing, removing or moving onto that very path (a parent
/// directory is created only where nothing is).
pub open spec fn change_touches(change: ApplyRequestView, path: Seq<char>) -> bool {
    match change {
        ApplyRequestView::CreateSymlink { target, .. } => target == path,
        ApplyRequestView::RemovePath(p) => p == path,
        ApplyRequestView::MoveToBackup { target, backup } => target == path || backup == path,
        ApplyRequestView::CopyFile { target, .. } => target == path,
        _ => false,
    }
}

proof fn lemma_changes_keep(fs: Fs, changes: Seq<ApplyRequestView>, path: Seq<char>)
    requires
        fs.contains_key(path),
        forall|i: int| 0 <= i < changes.len() ==> !change_touches(#[trigger] changes[i], path),
    ensures
        after_changes(fs, changes).contains_key(path),
        after_changes(fs, changes)[path] == fs[path],
    decreases changes.len(),
{
    if changes.len() > 0 {
        let next = after_change(fs, changes[0]);
        assert(!change_touches(changes[0], path));
        assert(next.contains_key(path) && next[path] == fs[path]);
        assert forall|i: int| 0 <= i < changes.drop_first().len() implies !change_touches(
            #[trigger] changes.drop_first()[i],
            path,
        ) by {
            assert(changes.drop_first()[i] == changes[i + 1]);
        }
        lemma_changes_keep(next, changes.drop_first(), path);
    }
}

/// Applying an operation leaves alone whatever is at a path other than its
/// target and backup path.
proof fn lemma_action_keeps(fs: Fs, action: OperationActionView, path: Seq<char>)
    requires
        fs.contains_key(path),
        path != operation_of(action).target,
        path != backup_of(action),
    ensures
        after_action(fs, action).contains_key(path),
        after_action(fs, action)[path] == fs[path],
{
    let changes = action_changes(fs, action);
    assert forall|i: int| 0 <= i < changes.len() implies !change_touches(#[trigger] changes[i], path) by {
    }
    lemma_changes_keep(fs, changes, path);
}


/// After an operation, something is at its target, and a copy's source is
/// still as it was.
proof fn lemma_action_places(fs: Fs, action: OperationActionView)
    requires
        action is Copy ==> file_content(fs, operation_of(action).source) is Some
            && operation_of(action).source != backup_of(action),
    ensures
        after_action(fs, action).contains_key(operation_of(action).target),
        action is Copy ==> after_action(fs, action).contains_key(operation_of(action).source)
            && after_action(fs, action)[operation_of(action).source] == fs[operation_of(
            action,
        ).source],
{
    let op = operation_of(action);
    let copy = action is Copy;
    let changes = action_changes(fs, action);
    let prepare = if op.mkdir {
        seq![ApplyRequestView::EnsureParentDirectory(op.target)]
    } else {
        Seq::<ApplyRequestView>::empty()
    };
    let place = if copy {
        seq![ApplyRequestView::CopyFile { source: op.source, target: op.target }]
    } else {
        seq![ApplyRequestView::CreateSymlink { source: op.source, target: op.target }]
    };
    let backup = backup_of(action);
    let kept = fs.contains_key(op.target) && (op.conflict_policy == ConflictPolicy::Skip || (copy
        && copy_in_place(fs, op)));
    if copy && op.source == op.target {
        assert(copy_in_place(fs, op));
    }
    if kept {
        assert(changes == prepare);
        assert forall|i: int| 0 <= i < changes.len() implies !change_touches(
            #[trigger] changes[i],
            op.target,
        ) by {}
        lemma_changes_keep(fs, changes, op.target);
        if copy {
            assert forall|i: int| 0 <= i < changes.len() implies !change_touches(
                #[trigger] changes[i],
                op.source,
            ) by {}
            lemma_changes_keep(fs, changes, op.source);
        }
    } else {
        let front = if !fs.contains_key(op.target) {
            prepare
        } else if op.conflict_policy == ConflictPolicy::Overwrite {
            prepare + seq![ApplyRequestView::RemovePath(op.target)]
        } else {
            prepare + seq![ApplyRequestView::MoveToBackup { target: op.target, backup }]
        };
        assert(changes == front + place);
        lemma_after_changes_concat(fs, front, place);
        let placed = after_changes(fs, front);
        lemma_after_single(placed, place[0]);
        if copy {
            assert(op.source != op.target);
            assert forall|i: int| 0 <= i < front.len() implies !change_touches(
                #[trigger] front[i],
                op.source,
            ) by {}
            lemma_changes_keep(fs, front, op.source);
        }
    }
}


/// Whether a later operation leaves an earlier one's paths alone: it
/// places, removes and backs up nothing at the earlier target, nor, for a
/// copy, at the copy's source.
pub open spec fn leaves_alone(later: OperationActionView, earlier: OperationActionView) -> bool {
    let target = operation_of(later).target;
    let backup = backup_of(later);
    &&& target != operation_of(earlier).target
    &&& backup != operation_of(earlier).target
    &&& earlier is Copy ==> target != operation_of(earlier).source && backup != operation_of(
        earlier,
    ).source
}

/// Whether every operation a plan carries out leaves the paths of those
/// before it alone.
pub open spec fn operations_independent(entries: Seq<OperationEntryView>) -> bool {
    forall|i: int, j: int|
        0 <= i < j < entries.len() && (#[trigger] carried_out(entries[i])) is Some && (
        #[trigger] carried_out(entries[j])) is Some ==> leaves_alone(
            carried_out(entries[j])->0,
            carried_out(entries[i])->0,
        )
}

proof fn lemma_path_persists(
    fs: Fs,
    entries: Seq<OperationEntryView>,
    from: int,
    to: int,
    path: Seq<char>,
)
    requires
        0 <= from <= to <= entries.len(),
        fs_before(fs, entries, from).contains_key(path),
        forall|j: int|
            from <= j < to && (#[trigger] carried_out(entries[j])) is Some ==> path
                != operation_of(carried_out(entries[j])->0).target && path != backup_of(
                carried_out(entries[j])->0,
            ),
    ensures
        fs_before(fs, entries, to).contains_key(path),
        fs_before(fs, entries, to)[path] == fs_before(fs, entries, from)[path],
    decreases to - from,
{
    if to > from {
        lemma_path_persists(fs, entries, from, to - 1, path);
        match carried_out(entries[to - 1]) {
            Some(action) => lemma_action_keeps(fs_before(fs, entries, to - 1), action, path),
            None => {},
        }
    }
}

/// Applies an operation with the results from `walk` on.
pub open spec fn apply_step(replies: ApplyReplies, walk: ApplyWalk, action: OperationActionView) -> ApplyStep {
    match action {
        OperationActionView::Symlink(op) => symlink_apply(replies, walk, op),
        OperationActionView::Copy(op) => copy_apply(replies, walk, op),
    }
}

/// How far apply has used the results when it comes to entry `k`.
pub open spec fn apply_walk_before(replies: ApplyReplies, entries: Seq<OperationEntryView>, k: int) -> ApplyWalk
    decreases k,
{
    if k <= 0 {
        ApplyWalk {
            changes: 0,
            existence: 0,
            inspection: InspectionWalk { kinds: 0, symlink_targets: 0, digests: 0 },
        }
    } else {
        let earlier = apply_walk_before(replies, entries, k - 1);
        match carried_out(entries[k - 1]) {
            Some(action) => match apply_step(replies, earlier, action) {
                Ok((_, w)) => w,
                Err(_) => earlier,
            },
            None => earlier,
        }
    }
}

/// Whether applying an operation to `fs` can go through: the results from
/// `walk` on are those `fs` gives, the backup path is free when an existing
/// target is moved aside, and a copy's source is a regular file other than
/// the copy's own backup path.
pub open spec fn operation_fits(fs: Fs, action: OperationActionView, replies: ApplyReplies, walk: ApplyWalk) -> bool {
    match action {
        OperationActionView::Symlink(op) => {
            &&& apply_answers_follow(fs, op, replies, walk)
            &&& (fs.contains_key(op.target) && op.conflict_policy == ConflictPolicy::OverwriteWithBackup)
                ==> !fs.contains_key(op.target + backup_suffix())
        },
        OperationActionView::Copy(op) => {
            &&& file_content(fs, op.source) is Some
            &&& op.source != op.target + backup_suffix()
            &&& copy_answers_follow(fs, op, replies, walk)
            &&& (fs.contains_key(op.target) && !copy_in_place(fs, op) && op.conflict_policy
                == ConflictPolicy::OverwriteWithBackup) ==> !fs.contains_key(
                op.target + backup_suffix(),
            )
        },
    }
}

/// Inspects an operation with the answers from `walk` on.
pub open spec fn inspection_step(
    later: InspectionReplies,
    walk: InspectionWalk,
    action: OperationActionView,
) -> Result<(Result<OperationInspectionOutcomeView, ProgramErrorView>, InspectionWalk), InspectionRequestView> {
    match action {
        OperationActionView::Symlink(op) => match symlink_inspection(later, walk, op) {
            Err(q) => Err(q),
            Ok((Err(e), w)) => Ok((Err(e), w)),
            Ok((Ok(i), w)) => Ok((Ok(OperationInspectionOutcomeView::Symlink(i)), w)),
        },
        OperationActionView::Copy(op) => match copy_inspection(later, walk, op) {
            Err(q) => Err(q),
            Ok((Err(e), w)) => Ok((Err(e), w)),
            Ok((Ok(i), w)) => Ok((Ok(OperationInspectionOutcomeView::Copy(i)), w)),
        },
    }
}

/// How far inspection has used the answers when it comes to entry `k`.
pub open spec fn inspection_walk_before(
    later: InspectionReplies,
    entries: Seq<OperationEntryView>,
    k: int,
) -> InspectionWalk
    decreases k,
{
    if k <= 0 {
        InspectionWalk { kinds: 0, symlink_targets: 0, digests: 0 }
    } else {
        let earlier = inspection_walk_before(later, entries, k - 1);
        match carried_out(entries[k - 1]) {
            Some(action) => match inspection_step(later, earlier, action) {
                Ok((_, w)) => w,
                Err(_) => earlier,
            },
            None => earlier,
        }
    }
}

/// Whether the answers from `walk` on are those `fs` gives to inspecting
/// an operation.
pub open spec fn inspection_fits(fs: Fs, action: OperationActionView, later: InspectionReplies, walk: InspectionWalk) -> bool {
    match action {
        OperationActionView::Symlink(op) => inspection_answers_follow(fs, op, later, walk),
        OperationActionView::Copy(op) => copy_inspection_answers_follow(fs, op, later, walk),
    }
}

/// Inspection answers that follow a file system give an outcome.
proof fn lemma_inspection_succeeds(fs: Fs, action: OperationActionView, later: InspectionReplies, walk: InspectionWalk)
    requires
        inspection_fits(fs, action, later, walk),
    ensures
        inspection_step(later, walk, action) matches Ok((Ok(_), _)),
{
}

/// What inspection answers say depends only on what is at the target (and
/// at a copy's source).
proof fn lemma_inspection_fits_alike(
    fs: Fs,
    other: Fs,
    action: OperationActionView,
    later: InspectionReplies,
    walk: InspectionWalk,
)
    requires
        inspection_fits(fs, action, later, walk),
        fs.contains_key(operation_of(action).target),
        other.contains_key(operation_of(action).target),
        other[operation_of(action).target] == fs[operation_of(action).target],
        action is Copy ==> fs.contains_key(operation_of(action).source) && other.contains_key(
            operation_of(action).source,
        ) && other[operation_of(action).source] == fs[operation_of(action).source],
    ensures
        inspection_fits(other, action, later, walk),
{
    let op = operation_of(action);
    assert(node_kind(other, op.target) == node_kind(fs, op.target));
    if action is Copy {
        assert(file_content(other, op.target) == file_content(fs, op.target));
        assert(file_content(other, op.source) == file_content(fs, op.source));
    }
}


/// Whether applying an operation to `fs` keeps an existing target as it is:
/// under the skip policy, unless a copy's target already holds the source's
/// content.
pub open spec fn keeps_target(fs: Fs, action: OperationActionView) -> bool {
    let op = operation_of(action);
    &&& fs.contains_key(op.target)
    &&& op.conflict_policy == ConflictPolicy::Skip
    &&& !(action is Copy && copy_in_place(fs, op))
}

/// Whether an inspection outcome reports an operation as in place.
pub open spec fn reported_in_place(outcome: OperationInspectionOutcomeView) -> bool {
    match outcome {
        OperationInspectionOutcomeView::Symlink(i) => i.state == SymlinkInspectionStateView::Correct,
        OperationInspectionOutcomeView::Copy(i) => i.state == CopyInspectionState::Correct,
        _ => false,
    }
}

/// One entry of a plan, applied and later inspected.
proof fn lemma_entry_applied_and_inspected(
    fs: Fs,
    entries: Seq<OperationEntryView>,
    k: int,
    replies: ApplyReplies,
    later: InspectionReplies,
    walk: InspectionWalk,
)
    requires
        0 <= k < entries.len(),
        carried_out(entries[k]) is Some,
        operations_independent(entries),
        operation_fits(
            fs_before(fs, entries, k),
            carried_out(entries[k])->0,
            replies,
            apply_walk_before(replies, entries, k),
        ),
        inspection_fits(fs_before(fs, entries, entries.len() as int), carried_out(entries[k])->0, later, walk),
    ensures
        apply_step(replies, apply_walk_before(replies, entries, k), carried_out(entries[k])->0) matches Ok((Ok(_), _)),
        inspection_step(later, walk, carried_out(entries[k])->0) matches Ok((Ok(_), _)),
        !keeps_target(fs_before(fs, entries, k), carried_out(entries[k])->0) ==> (inspection_step(
            later,
            walk,
            carried_out(entries[k])->0,
        ) matches Ok((Ok(outcome), _)) && reported_in_place(outcome)),
        keeps_target(fs_before(fs, entries, k), carried_out(entries[k])->0) ==> fs_before(
            fs,
            entries,
            entries.len() as int,
        )[operation_of(carried_out(entries[k])->0).target] == fs_before(fs, entries, k)[operation_of(
            carried_out(entries[k])->0,
        ).target],
{
    let action = carried_out(entries[k])->0;
    let op = operation_of(action);
    let fk = fs_before(fs, entries, k);
    let fk1 = fs_before(fs, entries, k + 1);
    let last = fs_before(fs, entries, entries.len() as int);
    let apply_walk = apply_walk_before(replies, entries, k);
    assert(fk1 == after_action(fk, action));
    lemma_action_places(fk, action);
    assert forall|j: int|
        k + 1 <= j < entries.len() && (#[trigger] carried_out(entries[j])) is Some implies op.target
        != operation_of(carried_out(entries[j])->0).target && op.target != backup_of(
        carried_out(entries[j])->0,
    ) by {
        assert(leaves_alone(carried_out(entries[j])->0, action));
    }
    lemma_path_persists(fs, entries, k + 1, entries.len() as int, op.target);
    if action is Copy {
        assert forall|j: int|
            k + 1 <= j < entries.len() && (#[trigger] carried_out(entries[j])) is Some implies op.source
            != operation_of(carried_out(entries[j])->0).target && op.source != backup_of(
            carried_out(entries[j])->0,
        ) by {
            assert(leaves_alone(carried_out(entries[j])->0, action));
        }
        lemma_path_persists(fs, entries, k + 1, entries.len() as int, op.source);
    }
    lemma_inspection_fits_alike(last, fk1, action, later, walk);
    lemma_inspection_succeeds(last, action, later, walk);
    match action {
        OperationActionView::Symlink(o) => {
            lemma_applied_symlink_inspects_correct(fk, o, replies, apply_walk, later, walk);
        },
        OperationActionView::Copy(o) => {
            lemma_applied_copy_inspects_correct(fk, o, replies, apply_walk, later, walk);
        },
    }
}


proof fn lemma_unblocked_entries_available(entries: Seq<OperationEntryView>)
    requires
        blocking_diagnostics(entries).len() == 0,
    ensures
        forall|j: int|
            0 <= j < entries.len() ==> (#[trigger] entries[j] matches OperationEntryView::Action(a)
                ==> a.source_availability is Available),
    decreases entries.len(),
{
    if entries.len() > 0 {
        let rest = entries.drop_last();
        lemma_unblocked_entries_available(rest);
        assert forall|j: int| 0 <= j < entries.len() implies (#[trigger] entries[j] matches OperationEntryView::Action(a)
            ==> a.source_availability is Available) by {
            if j < entries.len() - 1 {
                assert(entries[j] == rest[j]);
            }
        }
    }
}

proof fn lemma_apply_from_succeeds(
    fs: Fs,
    entries: Seq<OperationEntryView>,
    k: int,
    replies: ApplyReplies,
    later: InspectionReplies,
    acc: Seq<ApplyOperationOutcomeView>,
)
    requires
        0 <= k <= entries.len(),
        operations_independent(entries),
        forall|j: int|
            0 <= j < entries.len() && (#[trigger] carried_out(entries[j])) is Some ==> operation_fits(
                fs_before(fs, entries, j),
                carried_out(entries[j])->0,
                replies,
                apply_walk_before(replies, entries, j),
            ),
        forall|j: int|
            0 <= j < entries.len() && (#[trigger] carried_out(entries[j])) is Some ==> inspection_fits(
                fs_before(fs, entries, entries.len() as int),
                carried_out(entries[j])->0,
                later,
                inspection_walk_before(later, entries, j),
            ),
    ensures
        apply_from(replies, apply_walk_before(replies, entries, k), entries, k, acc) matches Ok(Ok(_)),
    decreases entries.len() - k,
{
    if k < entries.len() {
        let walk = apply_walk_before(replies, entries, k);
        assert(apply_walk_before(replies, entries, k + 1) == match carried_out(entries[k]) {
            Some(action) => match apply_step(replies, walk, action) {
                Ok((_, w)) => w,
                Err(_) => walk,
            },
            None => walk,
        });
        match carried_out(entries[k]) {
            Some(action) => {
                lemma_entry_applied_and_inspected(
                    fs,
                    entries,
                    k,
                    replies,
                    later,
                    inspection_walk_before(later, entries, k),
                );
                match apply_step(replies, walk, action) {
                    Ok((Ok(outcome), _)) => lemma_apply_from_succeeds(
                        fs,
                        entries,
                        k + 1,
                        replies,
                        later,
                        acc.push(outcome),
                    ),
                    _ => {},
                }
            },
            None => {
                match entries[k] {
                    OperationEntryView::Action(a) => lemma_apply_from_succeeds(
                        fs,
                        entries,
                        k + 1,
                        replies,
                        later,
                        acc.push(ApplyOperationOutcomeView::SkippedMissingTargetDirectory(a.action)),
                    ),
                    OperationEntryView::Issue(_) => lemma_apply_from_succeeds(
                        fs,
                        entries,
                        k + 1,
                        replies,
                        later,
                        acc,
                    ),
                }
            },
        }
    }
}


proof fn lemma_outcomes_from_in_place(
    fs: Fs,
    entries: Seq<OperationEntryView>,
    k: int,
    replies: ApplyReplies,
    later: InspectionReplies,
    acc: Seq<OperationInspectionOutcomeView>,
)
    requires
        0 <= k <= entries.len(),
        acc.len() == k,
        operations_independent(entries),
        forall|j: int|
            0 <= j < entries.len() ==> (#[trigger] entries[j] matches OperationEntryView::Action(a)
                ==> a.source_availability is Available),
        forall|j: int|
            0 <= j < entries.len() && (#[trigger] carried_out(entries[j])) is Some ==> operation_fits(
                fs_before(fs, entries, j),
                carried_out(entries[j])->0,
                replies,
                apply_walk_before(replies, entries, j),
            ),
        forall|j: int|
            0 <= j < entries.len() && (#[trigger] carried_out(entries[j])) is Some ==> inspection_fits(
                fs_before(fs, entries, entries.len() as int),
                carried_out(entries[j])->0,
                later,
                inspection_walk_before(later, entries, j),
            ),
    ensures
        outcomes_from(later, inspection_walk_before(later, entries, k), entries, k, acc) matches Ok(
            Ok(outcomes),
        ) && outcomes.len() == entries.len() && (forall|j: int| 0 <= j < k ==> outcomes[j] == acc[j])
            && (forall|j: int|
            k <= j < entries.len() && (#[trigger] carried_out(entries[j])) is Some
                && !keeps_target(fs_before(fs, entries, j), carried_out(entries[j])->0)
                ==> reported_in_place(outcomes[j])),
    decreases entries.len() - k,
{
    if k < entries.len() {
        let walk = inspection_walk_before(later, entries, k);
        assert(inspection_walk_before(later, entries, k + 1) == match carried_out(entries[k]) {
            Some(action) => match inspection_step(later, walk, action) {
                Ok((_, w)) => w,
                Err(_) => walk,
            },
            None => walk,
        });
        match carried_out(entries[k]) {
            Some(action) => {
                lemma_entry_applied_and_inspected(fs, entries, k, replies, later, walk);
                match inspection_step(later, walk, action) {
                    Ok((Ok(outcome), _)) => {
                        lemma_outcomes_from_in_place(
                            fs,
                            entries,
                            k + 1,
                            replies,
                            later,
                            acc.push(outcome),
                        );
                    },
                    _ => {},
                }
            },
            None => {
                match entries[k] {
                    OperationEntryView::Action(a) => lemma_outcomes_from_in_place(
                        fs,
                        entries,
                        k + 1,
                        replies,
                        later,
                        acc.push(OperationInspectionOutcomeView::Unavailable(a)),
                    ),
                    OperationEntryView::Issue(i) => lemma_outcomes_from_in_place(
                        fs,
                        entries,
                        k + 1,
                        replies,
                        later,
                        acc.push(OperationInspectionOutcomeView::PlanningIssue(i)),
                    ),
                }
            },
        }
    }
}

/// Apply sets up what inspection checks, for a whole plan. When no planned
/// source is unavailable, every operation apply carries out leaves the
/// paths of those before it alone, and every result apply gets, and every
/// answer a later inspection gets, is what the file system gives at that
/// point, then apply goes through, and the inspection reports every
/// operation as in place, but for those whose existing target apply kept:
/// those targets are as they were.
pub proof fn lemma_applied_plan_inspects_correct(
    fs: Fs,
    plan: OperationPlanView,
    replies: ApplyReplies,
    later: InspectionReplies,
)
    requires
        blocking_diagnostics(plan.entries).len() == 0,
        operations_independent(plan.entries),
        forall|k: int|
            0 <= k < plan.entries.len() && (#[trigger] carried_out(plan.entries[k])) is Some
                ==> operation_fits(
                fs_before(fs, plan.entries, k),
                carried_out(plan.entries[k])->0,
                replies,
                apply_walk_before(replies, plan.entries, k),
            ),
        forall|k: int|
            0 <= k < plan.entries.len() && (#[trigger] carried_out(plan.entries[k])) is Some
                ==> inspection_fits(
                fs_before(fs, plan.entries, plan.entries.len() as int),
                carried_out(plan.entries[k])->0,
                later,
                inspection_walk_before(later, plan.entries, k),
            ),
    ensures
        plan_apply(plan, replies) matches Ok(Ok(_)),
        plan_inspection(plan, later) matches Ok(Ok(outcomes)) && outcomes.len() == plan.entries.len()
            && forall|k: int|
            0 <= k < plan.entries.len() && (#[trigger] carried_out(plan.entries[k])) is Some ==> if keeps_target(
                fs_before(fs, plan.entries, k),
                carried_out(plan.entries[k])->0,
            ) {
                fs_before(fs, plan.entries, plan.entries.len() as int)[operation_of(
                    carried_out(plan.entries[k])->0,
                ).target] == fs_before(fs, plan.entries, k)[operation_of(
                    carried_out(plan.entries[k])->0,
                ).target]
            } else {
                reported_in_place(outcomes[k])
            },
{
    let entries = plan.entries;
    lemma_unblocked_entries_available(entries);
    assert(apply_walk_before(replies, entries, 0) == ApplyWalk {
        changes: 0,
        existence: 0,
        inspection: InspectionWalk { kinds: 0, symlink_targets: 0, digests: 0 },
    });
    lemma_apply_from_succeeds(fs, entries, 0, replies, later, Seq::empty());
    lemma_outcomes_from_in_place(fs, entries, 0, replies, later, Seq::empty());
    assert forall|k: int|
        0 <= k < entries.len() && (#[trigger] carried_out(entries[k])) is Some && keeps_target(
            fs_before(fs, entries, k),
            carried_out(entries[k])->0,
        ) implies fs_before(fs, entries, entries.len() as int)[operation_of(
        carried_out(entries[k])->0,
    ).target] == fs_before(fs, entries, k)[operation_of(carried_out(entries[k])->0).target] by {
        lemma_entry_applied_and_inspected(
            fs,
            entries,
            k,
            replies,
            later,
            inspection_walk_before(later, entries, k),
        );
    }
}

} // verus!
