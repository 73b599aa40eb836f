//! Apply execution: decides, operation by operation, which filesystem
//! changes carry out a plan, and records what happened.
//!
//! The decisions are a pure function of the plan and the results of the
//! changes and probes made so far ([`ApplyReplies`]): it finishes, or names
//! the next change or probe in [`ApplyProgress::Needs`]. The caller performs
//! it and calls again with its result appended.

use vstd::prelude::*;

use crate::errors::{ProgramError, ProgramErrorView};
use crate::intent::ConflictPolicy;
use crate::logging::{decimal, event_of, events_view, labelled_count, make_event, LogEvent, LogEventView, RecordLevel};
use crate::operation::{
    blocking_diagnostics, entries_view, FileOperation, FileOperationView, OperationAction,
    OperationActionView, OperationEntry, OperationEntryView, OperationPlan,
};
use crate::status::{
    copy_inspection, inspect_copy_with, CopyInspectionState, InspectionCursor, InspectionReplies,
    InspectionRequest, InspectionRequestView, InspectionWalk,
};
use crate::text::texts_view;

verus! {

/// Structured apply outcomes for one operation-plan execution pass.
#[derive(Debug, Clone, PartialEq, Eq)]
pub struct ApplyOperationReport {
    pub outcomes: Vec<ApplyOperationOutcome>,
}

/// Per-operation apply result.
#[derive(Debug, Clone, PartialEq, Eq)]
pub enum ApplyOperationOutcome {
    Applied(OperationAction),
    SkippedExistingTarget(OperationAction),
    SkippedMissingTargetDirectory(OperationAction),
    UnsupportedOperation(OperationAction),
}

pub enum ApplyOperationOutcomeView {
    Applied(OperationActionView),
    SkippedExistingTarget(OperationActionView),
    SkippedMissingTargetDirectory(OperationActionView),
    UnsupportedOperation(OperationActionView),
}

impl View for ApplyOperationOutcome {
    type V = ApplyOperationOutcomeView;

    open spec fn view(&self) -> ApplyOperationOutcomeView {
        match self {
            ApplyOperationOutcome::Applied(a) => ApplyOperationOutcomeView::Applied(a@),
            ApplyOperationOutcome::SkippedExistingTarget(a) =>
                ApplyOperationOutcomeView::SkippedExistingTarget(a@),
            ApplyOperationOutcome::SkippedMissingTargetDirectory(a) =>
                ApplyOperationOutcomeView::SkippedMissingTargetDirectory(a@),
            ApplyOperationOutcome::UnsupportedOperation(a) =>
                ApplyOperationOutcomeView::UnsupportedOperation(a@),
        }
    }
}

pub open spec fn apply_outcomes_view(outcomes: Seq<ApplyOperationOutcome>) -> Seq<
    ApplyOperationOutcomeView,
> {
    outcomes.map_values(|o: ApplyOperationOutcome| o@)
}

/// The suffix of the path an existing target is moved to before it is
/// replaced.
pub open spec fn backup_suffix() -> Seq<char> {
    ".orig"@
}

/// The path an existing target is moved to before it is replaced.
pub fn backup_path_for_target(path: &String) -> (res: String)
    ensures
        res@ == path@ + backup_suffix(),
{
    let mut backup = path.clone();
    backup.append(".orig");
    backup
}

// ---------------------------------------------------------------------------
// Questions and answers
// ---------------------------------------------------------------------------

/// A change or probe the apply stage needs carried out.
#[derive(Debug, PartialEq, Eq)]
pub enum ApplyRequest {
    /// Create the directory containing the path, with its parents.
    EnsureParentDirectory(String),
    /// Whether anything (even a dangling symlink) is at the path.
    TargetExists(String),
    /// Create a symlink at `target` pointing to `source`.
    CreateSymlink { source: String, target: String },
    /// Remove the file, symlink or empty directory at the path.
    RemovePath(String),
    /// Move what is at `target` to `backup`.
    MoveToBackup { target: String, backup: String },
    /// Copy the file at `source` to `target`.
    CopyFile { source: String, target: String },
    /// A question of status inspection (to compare a copy with its source).
    Inspect(InspectionRequest),
}

pub enum ApplyRequestView {
    EnsureParentDirectory(Seq<char>),
    TargetExists(Seq<char>),
    CreateSymlink { source: Seq<char>, target: Seq<char> },
    RemovePath(Seq<char>),
    MoveToBackup { target: Seq<char>, backup: Seq<char> },
    CopyFile { source: Seq<char>, target: Seq<char> },
    Inspect(InspectionRequestView),
}

impl View for ApplyRequest {
    type V = ApplyRequestView;

    open spec fn view(&self) -> ApplyRequestView {
        match self {
            ApplyRequest::EnsureParentDirectory(p) => ApplyRequestView::EnsureParentDirectory(p@),
            ApplyRequest::TargetExists(p) => ApplyRequestView::TargetExists(p@),
            ApplyRequest::CreateSymlink { source, target } => ApplyRequestView::CreateSymlink {
                source: source@,
                target: target@,
            },
            ApplyRequest::RemovePath(p) => ApplyRequestView::RemovePath(p@),
            ApplyRequest::MoveToBackup { target, backup } => ApplyRequestView::MoveToBackup {
                target: target@,
                backup: backup@,
            },
            ApplyRequest::CopyFile { source, target } => ApplyRequestView::CopyFile {
                source: source@,
                target: target@,
            },
            ApplyRequest::Inspect(q) => ApplyRequestView::Inspect(q@),
        }
    }
}

/// The results received so far, in the order the requests were made.
pub struct ApplyReplies {
    /// Results of the changes (directory creation, symlink creation,
    /// removal, backup move, copy).
    pub changes: Vec<Result<(), ProgramError>>,
    /// Results of the existence probes.
    pub existence: Vec<Result<bool, ProgramError>>,
    /// Answers to the inspection questions.
    pub inspection: InspectionReplies,
}

impl ApplyReplies {
    /// No results yet.
    pub fn new() -> (res: Self)
        ensures
            res.changes@.len() == 0,
            res.existence@.len() == 0,
            res.inspection.kinds@.len() == 0,
            res.inspection.symlink_targets@.len() == 0,
            res.inspection.digests@.len() == 0,
    {
        ApplyReplies {
            changes: Vec::new(),
            existence: Vec::new(),
            inspection: InspectionReplies::new(),
        }
    }
}

/// Where apply execution stands.
#[derive(Debug, PartialEq, Eq)]
pub enum ApplyProgress {
    Finished(Result<ApplyOperationReport, ProgramError>),
    Needs(ApplyRequest),
}

/// How far apply has used each kind of result.
pub struct ApplyWalk {
    pub changes: nat,
    pub existence: nat,
    pub inspection: InspectionWalk,
}

pub open spec fn error_view(result: Result<(), ProgramError>) -> Result<(), ProgramErrorView> {
    match result {
        Ok(()) => Ok(()),
        Err(e) => Err(e@),
    }
}

/// Makes a change: the next change result, if any.
pub open spec fn ask_change(replies: ApplyReplies, walk: ApplyWalk, request: ApplyRequestView) -> Result<
    (Result<(), ProgramErrorView>, ApplyWalk),
    ApplyRequestView,
> {
    if walk.changes < replies.changes@.len() {
        Ok(
            (
                error_view(replies.changes@[walk.changes as int]),
                ApplyWalk { changes: walk.changes + 1, ..walk },
            ),
        )
    } else {
        Err(request)
    }
}

/// Probes a path: the next existence result, if any.
pub open spec fn ask_exists(replies: ApplyReplies, walk: ApplyWalk, path: Seq<char>) -> Result<
    (Result<bool, ProgramErrorView>, ApplyWalk),
    ApplyRequestView,
> {
    if walk.existence < replies.existence@.len() {
        Ok(
            (
                match replies.existence@[walk.existence as int] {
                    Ok(b) => Ok(b),
                    Err(e) => Err(e@),
                },
                ApplyWalk { existence: walk.existence + 1, ..walk },
            ),
        )
    } else {
        Err(ApplyRequestView::TargetExists(path))
    }
}

/// Creates the target's parent directory first when the operation asks
/// for it.
pub open spec fn prepare_target(replies: ApplyReplies, walk: ApplyWalk, op: FileOperationView) -> Result<
    (Result<(), ProgramErrorView>, ApplyWalk),
    ApplyRequestView,
> {
    if op.mkdir {
        ask_change(replies, walk, ApplyRequestView::EnsureParentDirectory(op.target))
    } else {
        Ok((Ok(()), walk))
    }
}

/// The request that puts the source in place at the target.
pub open spec fn placement(op: FileOperationView, copy: bool) -> ApplyRequestView {
    if copy {
        ApplyRequestView::CopyFile { source: op.source, target: op.target }
    } else {
        ApplyRequestView::CreateSymlink { source: op.source, target: op.target }
    }
}

pub open spec fn action_of(op: FileOperationView, copy: bool) -> OperationActionView {
    if copy {
        OperationActionView::Copy(op)
    } else {
        OperationActionView::Symlink(op)
    }
}

pub type ApplyStep = Result<(Result<ApplyOperationOutcomeView, ProgramErrorView>, ApplyWalk), ApplyRequestView>;

/// Places the source at the target and reports the operation as applied.
pub open spec fn place(replies: ApplyReplies, walk: ApplyWalk, op: FileOperationView, copy: bool) -> ApplyStep {
    match ask_change(replies, walk, placement(op, copy)) {
        Err(q) => Err(q),
        Ok((Err(e), w)) => Ok((Err(e), w)),
        Ok((Ok(()), w)) => Ok((Ok(ApplyOperationOutcomeView::Applied(action_of(op, copy))), w)),
    }
}

/// What happens to an existing target, by the conflict policy: kept
/// (skip), removed then replaced (overwrite), or moved to its backup path
/// then replaced (overwrite with backup), which fails when something is
/// already at the backup path.
pub open spec fn resolve_conflict(
    replies: ApplyReplies,
    walk: ApplyWalk,
    op: FileOperationView,
    copy: bool,
) -> ApplyStep {
    match op.conflict_policy {
        ConflictPolicy::Skip => Ok(
            (Ok(ApplyOperationOutcomeView::SkippedExistingTarget(action_of(op, copy))), walk),
        ),
        ConflictPolicy::Overwrite => match ask_change(
            replies,
            walk,
            ApplyRequestView::RemovePath(op.target),
        ) {
            Err(q) => Err(q),
            Ok((Err(e), w)) => Ok((Err(e), w)),
            Ok((Ok(()), w)) => place(replies, w, op, copy),
        },
        ConflictPolicy::OverwriteWithBackup => {
            let backup = op.target + backup_suffix();
            match ask_exists(replies, walk, backup) {
                Err(q) => Err(q),
                Ok((Err(e), w)) => Ok((Err(e), w)),
                Ok((Ok(true), w)) => Ok(
                    (Err(ProgramErrorView::BackupAlreadyExists { path: backup }), w),
                ),
                Ok((Ok(false), w)) => match ask_change(
                    replies,
                    w,
                    ApplyRequestView::MoveToBackup { target: op.target, backup },
                ) {
                    Err(q) => Err(q),
                    Ok((Err(e), w2)) => Ok((Err(e), w2)),
                    Ok((Ok(()), w2)) => place(replies, w2, op, copy),
                },
            }
        },
    }
}

/// Applies a symlink operation: a missing target is created; an existing
/// one is resolved by the conflict policy.
pub open spec fn symlink_apply(replies: ApplyReplies, walk: ApplyWalk, op: FileOperationView) -> ApplyStep {
    match prepare_target(replies, walk, op) {
        Err(q) => Err(q),
        Ok((Err(e), w)) => Ok((Err(e), w)),
        Ok((Ok(()), w)) => match ask_exists(replies, w, op.target) {
            Err(q) => Err(q),
            Ok((Err(e), w2)) => Ok((Err(e), w2)),
            Ok((Ok(false), w2)) => place(replies, w2, op, false),
            Ok((Ok(true), w2)) => resolve_conflict(replies, w2, op, false),
        },
    }
}

/// Applies a copy operation: a missing target is copied; an existing one
/// that already matches the source is skipped, any other is resolved by the
/// conflict policy.
pub open spec fn copy_apply(replies: ApplyReplies, walk: ApplyWalk, op: FileOperationView) -> ApplyStep {
    match prepare_target(replies, walk, op) {
        Err(q) => Err(q),
        Ok((Err(e), w)) => Ok((Err(e), w)),
        Ok((Ok(()), w)) => match ask_exists(replies, w, op.target) {
            Err(q) => Err(q),
            Ok((Err(e), w2)) => Ok((Err(e), w2)),
            Ok((Ok(false), w2)) => place(replies, w2, op, true),
            Ok((Ok(true), w2)) => match copy_inspection(replies.inspection, w2.inspection, op) {
                Err(q) => Err(ApplyRequestView::Inspect(q)),
                Ok((Err(e), iw)) => Ok((Err(e), ApplyWalk { inspection: iw, ..w2 })),
                Ok((Ok(inspection), iw)) => if inspection.state == CopyInspectionState::Correct {
                    Ok(
                        (
                            Ok(ApplyOperationOutcomeView::SkippedExistingTarget(action_of(op, true))),
                            ApplyWalk { inspection: iw, ..w2 },
                        ),
                    )
                } else {
                    resolve_conflict(replies, ApplyWalk { inspection: iw, ..w2 }, op, true)
                },
            },
        },
    }
}

/// The outcomes of the entries `entries[k..]`, appended to `acc`: issues are
/// passed over, skipped actions reported as such, others applied; the first
/// failure stops apply.
pub open spec fn apply_from(
    replies: ApplyReplies,
    walk: ApplyWalk,
    entries: Seq<OperationEntryView>,
    k: int,
    acc: Seq<ApplyOperationOutcomeView>,
) -> Result<Result<Seq<ApplyOperationOutcomeView>, ProgramErrorView>, ApplyRequestView>
    decreases entries.len() - k,
{
    if k >= entries.len() || k < 0 {
        Ok(Ok(acc))
    } else {
        match entries[k] {
            OperationEntryView::Issue(_) => apply_from(replies, walk, entries, k + 1, acc),
            OperationEntryView::Action(a) => if a.skip_reason is Some {
                apply_from(
                    replies,
                    walk,
                    entries,
                    k + 1,
                    acc.push(ApplyOperationOutcomeView::SkippedMissingTargetDirectory(a.action)),
                )
            } else {
                let step = match a.action {
                    OperationActionView::Symlink(op) => symlink_apply(replies, walk, op),
                    OperationActionView::Copy(op) => copy_apply(replies, walk, op),
                };
                match step {
                    Err(q) => Err(q),
                    Ok((Err(e), _)) => Ok(Err(e)),
                    Ok((Ok(outcome), w)) => apply_from(replies, w, entries, k + 1, acc.push(outcome)),
                }
            },
        }
    }
}

/// Apply execution of `plan` against `replies`: refused with the blocking
/// diagnostics while any planned source is unavailable, otherwise one
/// outcome per action entry, in order.
pub open spec fn plan_apply(plan: crate::operation::OperationPlanView, replies: ApplyReplies) -> Result<
    Result<Seq<ApplyOperationOutcomeView>, ProgramErrorView>,
    ApplyRequestView,
> {
    let diagnostics = blocking_diagnostics(plan.entries);
    if diagnostics.len() > 0 {
        Ok(Err(ProgramErrorView::OperationPlanBlocked { diagnostics }))
    } else {
        apply_from(
            replies,
            ApplyWalk {
                changes: 0,
                existence: 0,
                inspection: InspectionWalk { kinds: 0, symlink_targets: 0, digests: 0 },
            },
            plan.entries,
            0,
            Seq::empty(),
        )
    }
}

// ---------------------------------------------------------------------------
// Executed
// ---------------------------------------------------------------------------

struct ApplyCursor {
    changes: usize,
    existence: usize,
    inspection: InspectionCursor,
}

impl View for ApplyCursor {
    type V = ApplyWalk;

    closed spec fn view(&self) -> ApplyWalk {
        ApplyWalk {
            changes: self.changes as nat,
            existence: self.existence as nat,
            inspection: self.inspection@,
        }
    }
}

enum Stop {
    Needs(ApplyRequest),
    Failed(ProgramError),
}

/// The exec form of an [`ApplyStep`] outcome.
spec fn step_matches(
    res: Result<ApplyOperationOutcome, Stop>,
    step: ApplyStep,
    cursor: ApplyWalk,
) -> bool {
    match step {
        Err(q) => res matches Err(Stop::Needs(r)) && r@ == q,
        Ok((Err(e), w)) => res matches Err(Stop::Failed(r)) && r@ == e && cursor == w,
        Ok((Ok(o), w)) => res matches Ok(r) && r@ == o && cursor == w,
    }
}

fn make_change(replies: &ApplyReplies, cursor: &mut ApplyCursor, request: ApplyRequest) -> (res:
    Result<(), Stop>)
    ensures
        match ask_change(*replies, old(cursor)@, request@) {
            Err(q) => res matches Err(Stop::Needs(r)) && r@ == q,
            Ok((Err(e), w)) => res matches Err(Stop::Failed(r)) && r@ == e && final(cursor)@ == w,
            Ok((Ok(()), w)) => res is Ok && final(cursor)@ == w,
        },
{
    if cursor.changes < replies.changes.len() {
        let index = cursor.changes;
        cursor.changes = cursor.changes + 1;
        match &replies.changes[index] {
            Ok(()) => Ok(()),
            Err(e) => Err(Stop::Failed(e.clone())),
        }
    } else {
        Err(Stop::Needs(request))
    }
}

fn probe_exists(replies: &ApplyReplies, cursor: &mut ApplyCursor, path: &String) -> (res: Result<
    bool,
    Stop,
>)
    ensures
        match ask_exists(*replies, old(cursor)@, path@) {
            Err(q) => res matches Err(Stop::Needs(r)) && r@ == q,
            Ok((Err(e), w)) => res matches Err(Stop::Failed(r)) && r@ == e && final(cursor)@ == w,
            Ok((Ok(b), w)) => res == Ok::<bool, Stop>(b) && final(cursor)@ == w,
        },
{
    if cursor.existence < replies.existence.len() {
        let index = cursor.existence;
        cursor.existence = cursor.existence + 1;
        match &replies.existence[index] {
            Ok(b) => Ok(*b),
            Err(e) => Err(Stop::Failed(e.clone())),
        }
    } else {
        Err(Stop::Needs(ApplyRequest::TargetExists(path.clone())))
    }
}

fn placement_request(operation: &FileOperation, copy: bool) -> (res: ApplyRequest)
    ensures
        res@ == placement(operation@, copy),
{
    if copy {
        ApplyRequest::CopyFile { source: operation.source.clone(), target: operation.target.clone() }
    } else {
        ApplyRequest::CreateSymlink {
            source: operation.source.clone(),
            target: operation.target.clone(),
        }
    }
}

fn action_for(operation: &FileOperation, copy: bool) -> (res: OperationAction)
    ensures
        res@ == action_of(operation@, copy),
{
    if copy {
        OperationAction::Copy(operation.clone())
    } else {
        OperationAction::Symlink(operation.clone())
    }
}

fn place_source(
    replies: &ApplyReplies,
    cursor: &mut ApplyCursor,
    operation: &FileOperation,
    copy: bool,
) -> (res: Result<ApplyOperationOutcome, Stop>)
    ensures
        step_matches(res, place(*replies, old(cursor)@, operation@, copy), final(cursor)@),
{
    make_change(replies, cursor, placement_request(operation, copy))?;
    Ok(ApplyOperationOutcome::Applied(action_for(operation, copy)))
}

fn resolve_existing_target(
    replies: &ApplyReplies,
    cursor: &mut ApplyCursor,
    operation: &FileOperation,
    copy: bool,
) -> (res: Result<ApplyOperationOutcome, Stop>)
    ensures
        step_matches(res, resolve_conflict(*replies, old(cursor)@, operation@, copy), final(cursor)@),
{
    match operation.conflict_policy {
        ConflictPolicy::Skip => Ok(ApplyOperationOutcome::SkippedExistingTarget(action_for(operation, copy))),
        ConflictPolicy::Overwrite => {
            make_change(replies, cursor, ApplyRequest::RemovePath(operation.target.clone()))?;
            place_source(replies, cursor, operation, copy)
        },
        ConflictPolicy::OverwriteWithBackup => {
            let backup_path = backup_path_for_target(&operation.target);
            if probe_exists(replies, cursor, &backup_path)? {
                return Err(Stop::Failed(ProgramError::BackupAlreadyExists { path: backup_path }));
            }
            make_change(
                replies,
                cursor,
                ApplyRequest::MoveToBackup { target: operation.target.clone(), backup: backup_path },
            )?;
            place_source(replies, cursor, operation, copy)
        },
    }
}

fn prepare(replies: &ApplyReplies, cursor: &mut ApplyCursor, operation: &FileOperation) -> (res: Result<
    (),
    Stop,
>)
    ensures
        match prepare_target(*replies, old(cursor)@, operation@) {
            Err(q) => res matches Err(Stop::Needs(r)) && r@ == q,
            Ok((Err(e), w)) => res matches Err(Stop::Failed(r)) && r@ == e && final(cursor)@ == w,
            Ok((Ok(()), w)) => res is Ok && final(cursor)@ == w,
        },
{
    if operation.mkdir {
        make_change(replies, cursor, ApplyRequest::EnsureParentDirectory(operation.target.clone()))
    } else {
        Ok(())
    }
}

fn apply_symlink_operation(
    replies: &ApplyReplies,
    cursor: &mut ApplyCursor,
    operation: &FileOperation,
) -> (res: Result<ApplyOperationOutcome, Stop>)
    ensures
        step_matches(res, symlink_apply(*replies, old(cursor)@, operation@), final(cursor)@),
{
    prepare(replies, cursor, operation)?;
    if !probe_exists(replies, cursor, &operation.target)? {
        return place_source(replies, cursor, operation, false);
    }
    resolve_existing_target(replies, cursor, operation, false)
}

fn apply_copy_operation(
    replies: &ApplyReplies,
    cursor: &mut ApplyCursor,
    operation: &FileOperation,
) -> (res: Result<ApplyOperationOutcome, Stop>)
    ensures
        step_matches(res, copy_apply(*replies, old(cursor)@, operation@), final(cursor)@),
{
    prepare(replies, cursor, operation)?;
    if !probe_exists(replies, cursor, &operation.target)? {
        return place_source(replies, cursor, operation, true);
    }
    let inspection = match inspect_copy_with(operation, &replies.inspection, &mut cursor.inspection) {
        Err(q) => return Err(Stop::Needs(ApplyRequest::Inspect(q))),
        Ok(Err(e)) => return Err(Stop::Failed(e)),
        Ok(Ok(i)) => i,
    };
    if inspection.state == CopyInspectionState::Correct {
        return Ok(ApplyOperationOutcome::SkippedExistingTarget(action_for(operation, true)));
    }
    resolve_existing_target(replies, cursor, operation, true)
}

/// Applies every action entry of `operation_plan`, against the results
/// gathered so far.
///
/// Refuses to start while any planned source is unavailable. Returns
/// [`ApplyProgress::Needs`] with the next change or probe while its result
/// is missing from `replies`.
pub fn apply_operation_plan(operation_plan: &OperationPlan, replies: &ApplyReplies) -> (res:
    ApplyProgress)
    ensures
        match plan_apply(operation_plan@, *replies) {
            Err(q) => res matches ApplyProgress::Needs(r) && r@ == q,
            Ok(Ok(o)) => res matches ApplyProgress::Finished(Ok(r)) && apply_outcomes_view(
                r.outcomes@,
            ) == o,
            Ok(Err(e)) => res matches ApplyProgress::Finished(Err(r)) && r@ == e,
        },
{
    let diagnostics = operation_plan.apply_blocking_diagnostics();
    if diagnostics.len() > 0 {
        return ApplyProgress::Finished(Err(ProgramError::OperationPlanBlocked { diagnostics }));
    }
    let mut cursor = ApplyCursor {
        changes: 0,
        existence: 0,
        inspection: InspectionCursor::new(),
    };
    let mut outcomes: Vec<ApplyOperationOutcome> = Vec::new();
    proof {
        assert(apply_outcomes_view(outcomes@) =~= Seq::<ApplyOperationOutcomeView>::empty());
    }
    let mut k: usize = 0;
    while k < operation_plan.entries.len()
        invariant
            k <= operation_plan.entries.len(),
            blocking_diagnostics(operation_plan@.entries).len() == 0,
            apply_from(
                *replies,
                ApplyWalk {
                    changes: 0,
                    existence: 0,
                    inspection: InspectionWalk { kinds: 0, symlink_targets: 0, digests: 0 },
                },
                operation_plan@.entries,
                0,
                Seq::empty(),
            ) == apply_from(
                *replies,
                cursor@,
                operation_plan@.entries,
                k as int,
                apply_outcomes_view(outcomes@),
            ),
        decreases operation_plan.entries.len() - k,
    {
        assert(operation_plan@.entries[k as int] == operation_plan.entries@[k as int]@);
        let ghost before = apply_outcomes_view(outcomes@);
        match &operation_plan.entries[k] {
            OperationEntry::Issue(_) => {},
            OperationEntry::Action(action_entry) => {
                let outcome = if action_entry.skip_reason.is_some() {
                    ApplyOperationOutcome::SkippedMissingTargetDirectory(action_entry.action.clone())
                } else {
                    let step = match &action_entry.action {
                        OperationAction::Symlink(op) => apply_symlink_operation(replies, &mut cursor, op),
                        OperationAction::Copy(op) => apply_copy_operation(replies, &mut cursor, op),
                    };
                    match step {
                        Err(Stop::Needs(q)) => return ApplyProgress::Needs(q),
                        Err(Stop::Failed(e)) => return ApplyProgress::Finished(Err(e)),
                        Ok(o) => o,
                    }
                };
                outcomes.push(outcome);
                assert(apply_outcomes_view(outcomes@) =~= before.push(outcome@));
            },
        }
        k += 1;
    }
    ApplyProgress::Finished(Ok(ApplyOperationReport { outcomes }))
}


// ---------------------------------------------------------------------------
// Log events of apply
// ---------------------------------------------------------------------------

/// The outcome of applying a plan, as [`plan_apply`] gives it.
pub open spec fn apply_progress_view(progress: ApplyProgress) -> Result<
    Result<Seq<ApplyOperationOutcomeView>, ProgramErrorView>,
    ApplyRequestView,
> {
    match progress {
        ApplyProgress::Needs(q) => Err(q@),
        ApplyProgress::Finished(Err(e)) => Ok(Err(e@)),
        ApplyProgress::Finished(Ok(report)) => Ok(Ok(apply_outcomes_view(report.outcomes@))),
    }
}

/// The kind of operation an outcome is about.
pub open spec fn outcome_kind(outcome: ApplyOperationOutcomeView) -> Seq<char> {
    let action = match outcome {
        ApplyOperationOutcomeView::Applied(a) => a,
        ApplyOperationOutcomeView::SkippedExistingTarget(a) => a,
        ApplyOperationOutcomeView::SkippedMissingTargetDirectory(a) => a,
        ApplyOperationOutcomeView::UnsupportedOperation(a) => a,
    };
    match action {
        OperationActionView::Symlink(_) => "symlink"@,
        OperationActionView::Copy(_) => "copy"@,
    }
}

/// The event for one processed operation.
pub open spec fn processed_event(outcome: ApplyOperationOutcomeView) -> LogEventView {
    event_of(
        RecordLevel::Debug,
        "gitenv::actions"@,
        "apply_action_processed"@,
        "kind="@ + outcome_kind(outcome),
    )
}

/// The events apply reports once it is over: its start, with the number of
/// entries, then on success one event per outcome, naming the kind of
/// operation, and the number of outcomes.
pub open spec fn apply_log(
    plan: crate::operation::OperationPlanView,
    outcome: Result<Result<Seq<ApplyOperationOutcomeView>, ProgramErrorView>, ApplyRequestView>,
) -> Seq<LogEventView> {
    let start = event_of(
        RecordLevel::Info,
        "gitenv::actions"@,
        "apply_operation_plan_start"@,
        "entries="@ + decimal(plan.entries.len()),
    );
    match outcome {
        Err(_) => Seq::empty(),
        Ok(Err(_)) => seq![start],
        Ok(Ok(outcomes)) => seq![start] + outcomes.map_values(
            |o: ApplyOperationOutcomeView| processed_event(o),
        ) + seq![
            event_of(
                RecordLevel::Info,
                "gitenv::actions"@,
                "apply_operation_plan_success"@,
                "outcomes="@ + decimal(outcomes.len()),
            ),
        ],
    }
}

fn processed(outcome: &ApplyOperationOutcome) -> (res: LogEvent)
    ensures
        res@ == processed_event(outcome@),
{
    let action = match outcome {
        ApplyOperationOutcome::Applied(a) => a,
        ApplyOperationOutcome::SkippedExistingTarget(a) => a,
        ApplyOperationOutcome::SkippedMissingTargetDirectory(a) => a,
        ApplyOperationOutcome::UnsupportedOperation(a) => a,
    };
    let kind = match action {
        OperationAction::Symlink(_) => String::from_str("kind=symlink"),
        OperationAction::Copy(_) => String::from_str("kind=copy"),
    };
    proof {
        reveal_strlit("kind=symlink");
        reveal_strlit("kind=copy");
        reveal_strlit("kind=");
        reveal_strlit("symlink");
        reveal_strlit("copy");
        assert("kind=symlink"@ =~= "kind="@ + "symlink"@);
        assert("kind=copy"@ =~= "kind="@ + "copy"@);
    }
    make_event(RecordLevel::Debug, "gitenv::actions", "apply_action_processed", kind)
}

/// The events of applying `operation_plan` that ended in `outcome` (see
/// [`apply_log`]).
pub fn apply_events(operation_plan: &OperationPlan, outcome: &ApplyProgress) -> (res: Vec<LogEvent>)
    ensures
        events_view(res@) == apply_log(operation_plan@, apply_progress_view(*outcome)),
{
    let mut events: Vec<LogEvent> = Vec::new();
    if let ApplyProgress::Needs(_) = outcome {
        assert(events_view(events@) =~= Seq::<LogEventView>::empty());
        return events;
    }
    let start = make_event(
        RecordLevel::Info,
        "gitenv::actions",
        "apply_operation_plan_start",
        labelled_count("entries=", operation_plan.entries.len()),
    );
    let ghost start_view = start@;
    events.push(start);
    match outcome {
        ApplyProgress::Finished(Ok(report)) => {
            let ghost all = apply_outcomes_view(report.outcomes@).map_values(
                |o: ApplyOperationOutcomeView| processed_event(o),
            );
            let mut i: usize = 0;
            while i < report.outcomes.len()
                invariant
                    i <= report.outcomes.len(),
                    all == apply_outcomes_view(report.outcomes@).map_values(
                        |o: ApplyOperationOutcomeView| processed_event(o),
                    ),
                    events_view(events@) == seq![start_view] + all.take(i as int),
                decreases report.outcomes.len() - i,
            {
                let event = processed(&report.outcomes[i]);
                let ghost before = events_view(events@);
                events.push(event);
                assert(events_view(events@) =~= before.push(all[i as int]));
                assert(all.take(i as int + 1) =~= all.take(i as int).push(all[i as int]));
                i += 1;
            }
            assert(all.take(report.outcomes.len() as int) =~= all);
            let success = make_event(
                RecordLevel::Info,
                "gitenv::actions",
                "apply_operation_plan_success",
                labelled_count("outcomes=", report.outcomes.len()),
            );
            let ghost success_view = success@;
            let ghost before = events_view(events@);
            events.push(success);
            assert(events_view(events@) =~= before.push(success_view));
        },
        _ => {
            assert(events_view(events@) =~= seq![start_view]);
        },
    }
    events
}


// ---------------------------------------------------------------------------
// Laws of apply
// ---------------------------------------------------------------------------

/// The operations of `entries[k..]` that apply reports on, in order: one
/// per action entry, none for an issue.
pub open spec fn reported_actions(entries: Seq<OperationEntryView>, k: int) -> Seq<OperationActionView>
    decreases entries.len() - k,
{
    if k >= entries.len() || k < 0 {
        Seq::empty()
    } else {
        match entries[k] {
            OperationEntryView::Issue(_) => reported_actions(entries, k + 1),
            OperationEntryView::Action(a) => seq![a.action] + reported_actions(entries, k + 1),
        }
    }
}

/// The operation an outcome is about.
pub open spec fn outcome_action(outcome: ApplyOperationOutcomeView) -> OperationActionView {
    match outcome {
        ApplyOperationOutcomeView::Applied(a) => a,
        ApplyOperationOutcomeView::SkippedExistingTarget(a) => a,
        ApplyOperationOutcomeView::SkippedMissingTargetDirectory(a) => a,
        ApplyOperationOutcomeView::UnsupportedOperation(a) => a,
    }
}

proof fn lemma_step_outcome_action(replies: ApplyReplies, walk: ApplyWalk, action: OperationActionView)
    ensures
        (match action {
            OperationActionView::Symlink(op) => symlink_apply(replies, walk, op),
            OperationActionView::Copy(op) => copy_apply(replies, walk, op),
        }) matches Ok((Ok(outcome), _)) ==> outcome_action(outcome) == action,
{
}

proof fn lemma_apply_from_reports(
    replies: ApplyReplies,
    walk: ApplyWalk,
    entries: Seq<OperationEntryView>,
    k: int,
    acc: Seq<ApplyOperationOutcomeView>,
)
    requires
        0 <= k <= entries.len(),
    ensures
        apply_from(replies, walk, entries, k, acc) matches Ok(Ok(outcomes)) ==> outcomes.len()
            == acc.len() + reported_actions(entries, k).len() && outcomes.take(acc.len() as int) == acc
            && forall|i: int|
            acc.len() <= i < outcomes.len() ==> outcome_action(#[trigger] outcomes[i]) == reported_actions(
                entries,
                k,
            )[i - acc.len()],
    decreases entries.len() - k,
{
    if k < entries.len() {
        match entries[k] {
            OperationEntryView::Issue(_) => {
                lemma_apply_from_reports(replies, walk, entries, k + 1, acc);
            },
            OperationEntryView::Action(a) => {
                let rest = reported_actions(entries, k + 1);
                assert(reported_actions(entries, k) == seq![a.action] + rest);
                if a.skip_reason is Some {
                    let o = ApplyOperationOutcomeView::SkippedMissingTargetDirectory(a.action);
                    lemma_apply_from_reports(replies, walk, entries, k + 1, acc.push(o));
                    if let Ok(Ok(outcomes)) = apply_from(replies, walk, entries, k, acc) {
                        assert(outcomes.take(acc.len() as int) =~= outcomes.take(acc.len() + 1int).take(acc.len() as int));
                        assert(outcomes[acc.len() as int] == outcomes.take(acc.len() + 1int)[acc.len() as int]);
                    }
                } else {
                    lemma_step_outcome_action(replies, walk, a.action);
                    let step = match a.action {
                        OperationActionView::Symlink(op) => symlink_apply(replies, walk, op),
                        OperationActionView::Copy(op) => copy_apply(replies, walk, op),
                    };
                    if let Ok((Ok(o), w)) = step {
                        lemma_apply_from_reports(replies, w, entries, k + 1, acc.push(o));
                        if let Ok(Ok(outcomes)) = apply_from(replies, walk, entries, k, acc) {
                            assert(outcomes.take(acc.len() as int) =~= outcomes.take(acc.len() + 1int).take(acc.len() as int));
                            assert(outcomes[acc.len() as int] == outcomes.take(acc.len() + 1int)[acc.len() as int]);
                        }
                    }
                }
            },
        }
    }
}

/// Apply reports one outcome per action entry of the plan, in plan order,
/// each about that entry's operation; planning issues get none.
pub proof fn lemma_one_outcome_per_action(plan: crate::operation::OperationPlanView, replies: ApplyReplies)
    ensures
        plan_apply(plan, replies) matches Ok(Ok(outcomes)) ==> outcomes.len() == reported_actions(
            plan.entries,
            0,
        ).len() && forall|i: int|
            0 <= i < outcomes.len() ==> outcome_action(#[trigger] outcomes[i]) == reported_actions(
                plan.entries,
                0,
            )[i],
{
    lemma_apply_from_reports(
        replies,
        ApplyWalk {
            changes: 0,
            existence: 0,
            inspection: InspectionWalk { kinds: 0, symlink_targets: 0, digests: 0 },
        },
        plan.entries,
        0,
        Seq::empty(),
    );
}

/// An existing target under the backup policy whose backup path is taken
/// stops apply with that error, before any change to the target.
pub proof fn lemma_taken_backup_path_stops_apply(replies: ApplyReplies, walk: ApplyWalk, op: FileOperationView, copy: bool)
    requires
        op.conflict_policy == ConflictPolicy::OverwriteWithBackup,
        walk.existence < replies.existence@.len(),
        replies.existence@[walk.existence as int] matches Ok(b) && b,
    ensures
        resolve_conflict(replies, walk, op, copy) == Ok::<_, ApplyRequestView>(
            (
                Err::<ApplyOperationOutcomeView, _>(
                    ProgramErrorView::BackupAlreadyExists { path: op.target + backup_suffix() },
                ),
                ApplyWalk { existence: walk.existence + 1, ..walk },
            ),
        ),
{
}

} // verus!
