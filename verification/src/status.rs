//! Status inspection: how the targets of a plan currently look, without
//! changing anything. Like planning, inspection is a pure function of the
//! plan and the answers received so far ([`InspectionReplies`]).

use vstd::prelude::*;

use crate::errors::{ProgramError, ProgramErrorView};
use crate::logging::{decimal, event_of, events_view, labelled_count, make_event, LogEvent, LogEventView, RecordLevel};
use crate::operation::{
    entries_view, FileOperation, FileOperationView, OperationAction, OperationEntry,
    OperationEntryView, OperationPlan, OperationPlanView, OperationPlanningIssue, OperationPlanningIssueView,
    PlannedOperationAction, PlannedOperationActionView,
};
use crate::text::{same_path, same_path_spec};

verus! {

/// Structured status for one operation-plan inspection pass.
#[derive(Debug, Clone, PartialEq, Eq)]
pub struct OperationInspectionReport {
    pub outcomes: Vec<OperationInspectionOutcome>,
}

/// Per-entry status outcome.
#[derive(Debug, Clone, PartialEq, Eq)]
pub enum OperationInspectionOutcome {
    Symlink(SymlinkInspection),
    Copy(CopyInspection),
    /// An action whose source is unavailable or that is skipped.
    Unavailable(PlannedOperationAction),
    /// A selection whose root could not be expanded.
    PlanningIssue(OperationPlanningIssue),
}

/// Structured status for a single concrete symlink operation.
#[derive(Debug, Clone, PartialEq, Eq)]
pub struct SymlinkInspection {
    pub source: String,
    pub target: String,
    pub state: SymlinkInspectionState,
}

/// Structured status for a single concrete copy operation.
#[derive(Debug, Clone, PartialEq, Eq)]
pub struct CopyInspection {
    pub source: String,
    pub target: String,
    pub state: CopyInspectionState,
}

/// Current status of a concrete symlink target path.
#[derive(Debug, Clone, PartialEq, Eq)]
pub enum SymlinkInspectionState {
    Correct,
    Missing,
    NotASymlink,
    PointsElsewhere { current_target: String },
}

/// Current status of a concrete copy target path.
#[derive(Debug, Clone, Copy, PartialEq, Eq, Structural)]
pub enum CopyInspectionState {
    Correct,
    Missing,
    NotAFile,
    Differs,
}

pub enum SymlinkInspectionStateView {
    Correct,
    Missing,
    NotASymlink,
    PointsElsewhere { current_target: Seq<char> },
}

pub struct SymlinkInspectionView {
    pub source: Seq<char>,
    pub target: Seq<char>,
    pub state: SymlinkInspectionStateView,
}

pub struct CopyInspectionView {
    pub source: Seq<char>,
    pub target: Seq<char>,
    pub state: CopyInspectionState,
}

pub enum OperationInspectionOutcomeView {
    Symlink(SymlinkInspectionView),
    Copy(CopyInspectionView),
    Unavailable(PlannedOperationActionView),
    PlanningIssue(OperationPlanningIssueView),
}

pub struct OperationInspectionReportView {
    pub outcomes: Seq<OperationInspectionOutcomeView>,
}

impl View for SymlinkInspectionState {
    type V = SymlinkInspectionStateView;

    open spec fn view(&self) -> SymlinkInspectionStateView {
        match self {
            SymlinkInspectionState::Correct => SymlinkInspectionStateView::Correct,
            SymlinkInspectionState::Missing => SymlinkInspectionStateView::Missing,
            SymlinkInspectionState::NotASymlink => SymlinkInspectionStateView::NotASymlink,
            SymlinkInspectionState::PointsElsewhere { current_target } =>
                SymlinkInspectionStateView::PointsElsewhere { current_target: current_target@ },
        }
    }
}

impl View for SymlinkInspection {
    type V = SymlinkInspectionView;

    open spec fn view(&self) -> SymlinkInspectionView {
        SymlinkInspectionView { source: self.source@, target: self.target@, state: self.state@ }
    }
}

impl View for CopyInspection {
    type V = CopyInspectionView;

    open spec fn view(&self) -> CopyInspectionView {
        CopyInspectionView { source: self.source@, target: self.target@, state: self.state }
    }
}

impl View for OperationInspectionOutcome {
    type V = OperationInspectionOutcomeView;

    open spec fn view(&self) -> OperationInspectionOutcomeView {
        match self {
            OperationInspectionOutcome::Symlink(i) => OperationInspectionOutcomeView::Symlink(i@),
            OperationInspectionOutcome::Copy(i) => OperationInspectionOutcomeView::Copy(i@),
            OperationInspectionOutcome::Unavailable(a) => OperationInspectionOutcomeView::Unavailable(
                a@,
            ),
            OperationInspectionOutcome::PlanningIssue(i) =>
                OperationInspectionOutcomeView::PlanningIssue(i@),
        }
    }
}

pub open spec fn outcomes_view(outcomes: Seq<OperationInspectionOutcome>) -> Seq<
    OperationInspectionOutcomeView,
> {
    outcomes.map_values(|o: OperationInspectionOutcome| o@)
}

impl View for OperationInspectionReport {
    type V = OperationInspectionReportView;

    open spec fn view(&self) -> OperationInspectionReportView {
        OperationInspectionReportView { outcomes: outcomes_view(self.outcomes@) }
    }
}

// ---------------------------------------------------------------------------
// Questions and answers
// ---------------------------------------------------------------------------

/// What is at a path, looked at without following a final symlink.
#[derive(Debug, Clone, Copy, PartialEq, Eq, Structural)]
pub enum PathKind {
    Missing,
    Symlink,
    File,
    /// A directory or any other non-file, non-symlink entry.
    Other,
}

/// A question inspection needs answered.
#[derive(Debug, PartialEq, Eq)]
pub enum InspectionRequest {
    /// What is at the path.
    PathKind(String),
    /// The path a symlink points to.
    SymlinkTarget(String),
    /// A digest of a file's contents.
    ContentDigest(String),
}

pub enum InspectionRequestView {
    PathKind(Seq<char>),
    SymlinkTarget(Seq<char>),
    ContentDigest(Seq<char>),
}

impl View for InspectionRequest {
    type V = InspectionRequestView;

    open spec fn view(&self) -> InspectionRequestView {
        match self {
            InspectionRequest::PathKind(p) => InspectionRequestView::PathKind(p@),
            InspectionRequest::SymlinkTarget(p) => InspectionRequestView::SymlinkTarget(p@),
            InspectionRequest::ContentDigest(p) => InspectionRequestView::ContentDigest(p@),
        }
    }
}

/// The answers received so far, one list per kind of question, each in the
/// order the questions were asked.
pub struct InspectionReplies {
    pub kinds: Vec<Result<PathKind, ProgramError>>,
    pub symlink_targets: Vec<Result<String, ProgramError>>,
    pub digests: Vec<Result<u64, ProgramError>>,
}

impl InspectionReplies {
    /// No answers yet.
    pub fn new() -> (res: Self)
        ensures
            res.kinds@.len() == 0,
            res.symlink_targets@.len() == 0,
            res.digests@.len() == 0,
    {
        InspectionReplies { kinds: Vec::new(), symlink_targets: Vec::new(), digests: Vec::new() }
    }
}

/// How far inspection has used each kind of answer.
pub struct InspectionWalk {
    pub kinds: nat,
    pub symlink_targets: nat,
    pub digests: nat,
}

pub open spec fn kind_answer(replies: InspectionReplies, k: nat) -> Result<PathKind, ProgramErrorView> {
    match replies.kinds@[k as int] {
        Ok(kind) => Ok(kind),
        Err(e) => Err(e@),
    }
}

pub open spec fn ask_kind(replies: InspectionReplies, walk: InspectionWalk, path: Seq<char>) -> Result<
    (Result<PathKind, ProgramErrorView>, InspectionWalk),
    InspectionRequestView,
> {
    if walk.kinds < replies.kinds@.len() {
        Ok((kind_answer(replies, walk.kinds), InspectionWalk { kinds: walk.kinds + 1, ..walk }))
    } else {
        Err(InspectionRequestView::PathKind(path))
    }
}

pub open spec fn ask_symlink_target(
    replies: InspectionReplies,
    walk: InspectionWalk,
    path: Seq<char>,
) -> Result<(Result<Seq<char>, ProgramErrorView>, InspectionWalk), InspectionRequestView> {
    if walk.symlink_targets < replies.symlink_targets@.len() {
        Ok(
            (
                match replies.symlink_targets@[walk.symlink_targets as int] {
                    Ok(t) => Ok(t@),
                    Err(e) => Err(e@),
                },
                InspectionWalk { symlink_targets: walk.symlink_targets + 1, ..walk },
            ),
        )
    } else {
        Err(InspectionRequestView::SymlinkTarget(path))
    }
}

pub open spec fn ask_digest(replies: InspectionReplies, walk: InspectionWalk, path: Seq<char>) -> Result<
    (Result<u64, ProgramErrorView>, InspectionWalk),
    InspectionRequestView,
> {
    if walk.digests < replies.digests@.len() {
        Ok(
            (
                match replies.digests@[walk.digests as int] {
                    Ok(d) => Ok(d),
                    Err(e) => Err(e@),
                },
                InspectionWalk { digests: walk.digests + 1, ..walk },
            ),
        )
    } else {
        Err(InspectionRequestView::ContentDigest(path))
    }
}

// ---------------------------------------------------------------------------
// Inspection of one operation
// ---------------------------------------------------------------------------

/// The status of a symlink operation: missing, not a symlink, or a symlink
/// that points at the source (ok) or elsewhere.
pub open spec fn symlink_inspection(
    replies: InspectionReplies,
    walk: InspectionWalk,
    op: FileOperationView,
) -> Result<(Result<SymlinkInspectionView, ProgramErrorView>, InspectionWalk), InspectionRequestView> {
    match ask_kind(replies, walk, op.target) {
        Err(q) => Err(q),
        Ok((Err(e), w)) => Ok((Err(e), w)),
        Ok((Ok(PathKind::Symlink), w)) => match ask_symlink_target(replies, w, op.target) {
            Err(q) => Err(q),
            Ok((Err(e), w2)) => Ok((Err(e), w2)),
            Ok((Ok(current), w2)) => Ok(
                (
                    Ok(
                        SymlinkInspectionView {
                            source: op.source,
                            target: op.target,
                            state: if same_path_spec(current, op.source) {
                                SymlinkInspectionStateView::Correct
                            } else {
                                SymlinkInspectionStateView::PointsElsewhere {
                                    current_target: current,
                                }
                            },
                        },
                    ),
                    w2,
                ),
            ),
        },
        Ok((Ok(PathKind::Missing), w)) => Ok(
            (
                Ok(
                    SymlinkInspectionView {
                        source: op.source,
                        target: op.target,
                        state: SymlinkInspectionStateView::Missing,
                    },
                ),
                w,
            ),
        ),
        Ok((Ok(_), w)) => Ok(
            (
                Ok(
                    SymlinkInspectionView {
                        source: op.source,
                        target: op.target,
                        state: SymlinkInspectionStateView::NotASymlink,
                    },
                ),
                w,
            ),
        ),
    }
}

/// The status of a copy operation: missing, not a regular file, or a file
/// whose contents match the source's (ok) or differ.
pub open spec fn copy_inspection(
    replies: InspectionReplies,
    walk: InspectionWalk,
    op: FileOperationView,
) -> Result<(Result<CopyInspectionView, ProgramErrorView>, InspectionWalk), InspectionRequestView> {
    match ask_kind(replies, walk, op.target) {
        Err(q) => Err(q),
        Ok((Err(e), w)) => Ok((Err(e), w)),
        Ok((Ok(PathKind::File), w)) => match ask_digest(replies, w, op.source) {
            Err(q) => Err(q),
            Ok((Err(e), w2)) => Ok((Err(e), w2)),
            Ok((Ok(source_digest), w2)) => match ask_digest(replies, w2, op.target) {
                Err(q) => Err(q),
                Ok((Err(e), w3)) => Ok((Err(e), w3)),
                Ok((Ok(target_digest), w3)) => Ok(
                    (
                        Ok(
                            CopyInspectionView {
                                source: op.source,
                                target: op.target,
                                state: if source_digest == target_digest {
                                    CopyInspectionState::Correct
                                } else {
                                    CopyInspectionState::Differs
                                },
                            },
                        ),
                        w3,
                    ),
                ),
            },
        },
        Ok((Ok(PathKind::Missing), w)) => Ok(
            (
                Ok(
                    CopyInspectionView {
                        source: op.source,
                        target: op.target,
                        state: CopyInspectionState::Missing,
                    },
                ),
                w,
            ),
        ),
        Ok((Ok(_), w)) => Ok(
            (
                Ok(
                    CopyInspectionView {
                        source: op.source,
                        target: op.target,
                        state: CopyInspectionState::NotAFile,
                    },
                ),
                w,
            ),
        ),
    }
}

/// How far an inspection has used each kind of answer.
pub struct InspectionCursor {
    pub kinds: usize,
    pub symlink_targets: usize,
    pub digests: usize,
}

impl View for InspectionCursor {
    type V = InspectionWalk;

    open spec fn view(&self) -> InspectionWalk {
        InspectionWalk {
            kinds: self.kinds as nat,
            symlink_targets: self.symlink_targets as nat,
            digests: self.digests as nat,
        }
    }
}

impl InspectionCursor {
    /// A cursor that has used no answer yet.
    pub fn new() -> (res: Self)
        ensures
            res@ == (InspectionWalk { kinds: 0, symlink_targets: 0, digests: 0 }),
    {
        InspectionCursor { kinds: 0, symlink_targets: 0, digests: 0 }
    }
}

fn next_kind(replies: &InspectionReplies, cursor: &mut InspectionCursor, path: &String) -> (res:
    Result<Result<PathKind, ProgramError>, InspectionRequest>)
    ensures
        match ask_kind(*replies, old(cursor)@, path@) {
            Err(q) => res matches Err(r) && r@ == q,
            Ok((Ok(k), w)) => res matches Ok(Ok(r)) && r == k && final(cursor)@ == w,
            Ok((Err(e), w)) => res matches Ok(Err(r)) && r@ == e && final(cursor)@ == w,
        },
{
    if cursor.kinds < replies.kinds.len() {
        let answer = match &replies.kinds[cursor.kinds] {
            Ok(kind) => Ok(*kind),
            Err(e) => Err(e.clone()),
        };
        cursor.kinds = cursor.kinds + 1;
        Ok(answer)
    } else {
        Err(InspectionRequest::PathKind(path.clone()))
    }
}

fn next_symlink_target(replies: &InspectionReplies, cursor: &mut InspectionCursor, path: &String) -> (res:
    Result<Result<String, ProgramError>, InspectionRequest>)
    ensures
        match ask_symlink_target(*replies, old(cursor)@, path@) {
            Err(q) => res matches Err(r) && r@ == q,
            Ok((Ok(t), w)) => res matches Ok(Ok(r)) && r@ == t && final(cursor)@ == w,
            Ok((Err(e), w)) => res matches Ok(Err(r)) && r@ == e && final(cursor)@ == w,
        },
{
    if cursor.symlink_targets < replies.symlink_targets.len() {
        let answer = match &replies.symlink_targets[cursor.symlink_targets] {
            Ok(t) => Ok(t.clone()),
            Err(e) => Err(e.clone()),
        };
        cursor.symlink_targets = cursor.symlink_targets + 1;
        Ok(answer)
    } else {
        Err(InspectionRequest::SymlinkTarget(path.clone()))
    }
}

fn next_digest(replies: &InspectionReplies, cursor: &mut InspectionCursor, path: &String) -> (res:
    Result<Result<u64, ProgramError>, InspectionRequest>)
    ensures
        match ask_digest(*replies, old(cursor)@, path@) {
            Err(q) => res matches Err(r) && r@ == q,
            Ok((Ok(d), w)) => res matches Ok(Ok(r)) && r == d && final(cursor)@ == w,
            Ok((Err(e), w)) => res matches Ok(Err(r)) && r@ == e && final(cursor)@ == w,
        },
{
    if cursor.digests < replies.digests.len() {
        let answer = match &replies.digests[cursor.digests] {
            Ok(d) => Ok(*d),
            Err(e) => Err(e.clone()),
        };
        cursor.digests = cursor.digests + 1;
        Ok(answer)
    } else {
        Err(InspectionRequest::ContentDigest(path.clone()))
    }
}

/// Inspects one symlink operation, using answers from `cursor` on.
pub fn inspect_symlink_with(
    operation: &FileOperation,
    replies: &InspectionReplies,
    cursor: &mut InspectionCursor,
) -> (res: Result<Result<SymlinkInspection, ProgramError>, InspectionRequest>)
    ensures
        match symlink_inspection(*replies, old(cursor)@, operation@) {
            Err(q) => res matches Err(r) && r@ == q,
            Ok((Ok(i), w)) => res matches Ok(Ok(r)) && r@ == i && final(cursor)@ == w,
            Ok((Err(e), w)) => res matches Ok(Err(r)) && r@ == e && final(cursor)@ == w,
        },
{
    let state = match next_kind(replies, cursor, &operation.target)? {
        Err(e) => return Ok(Err(e)),
        Ok(PathKind::Symlink) => {
            let current_target = match next_symlink_target(replies, cursor, &operation.target)? {
                Err(e) => return Ok(Err(e)),
                Ok(t) => t,
            };
            if same_path(&current_target, &operation.source) {
                SymlinkInspectionState::Correct
            } else {
                SymlinkInspectionState::PointsElsewhere { current_target }
            }
        },
        Ok(PathKind::Missing) => SymlinkInspectionState::Missing,
        Ok(_) => SymlinkInspectionState::NotASymlink,
    };
    Ok(
        Ok(
            SymlinkInspection {
                source: operation.source.clone(),
                target: operation.target.clone(),
                state,
            },
        ),
    )
}

/// Inspects one copy operation, using answers from `cursor` on.
pub fn inspect_copy_with(
    operation: &FileOperation,
    replies: &InspectionReplies,
    cursor: &mut InspectionCursor,
) -> (res: Result<Result<CopyInspection, ProgramError>, InspectionRequest>)
    ensures
        match copy_inspection(*replies, old(cursor)@, operation@) {
            Err(q) => res matches Err(r) && r@ == q,
            Ok((Ok(i), w)) => res matches Ok(Ok(r)) && r@ == i && final(cursor)@ == w,
            Ok((Err(e), w)) => res matches Ok(Err(r)) && r@ == e && final(cursor)@ == w,
        },
{
    let state = match next_kind(replies, cursor, &operation.target)? {
        Err(e) => return Ok(Err(e)),
        Ok(PathKind::File) => {
            let source_digest = match next_digest(replies, cursor, &operation.source)? {
                Err(e) => return Ok(Err(e)),
                Ok(d) => d,
            };
            let target_digest = match next_digest(replies, cursor, &operation.target)? {
                Err(e) => return Ok(Err(e)),
                Ok(d) => d,
            };
            if source_digest == target_digest {
                CopyInspectionState::Correct
            } else {
                CopyInspectionState::Differs
            }
        },
        Ok(PathKind::Missing) => CopyInspectionState::Missing,
        Ok(_) => CopyInspectionState::NotAFile,
    };
    Ok(
        Ok(
            CopyInspection {
                source: operation.source.clone(),
                target: operation.target.clone(),
                state,
            },
        ),
    )
}

/// Where the inspection of one operation stands.
#[derive(Debug, PartialEq, Eq)]
pub enum InspectionProgress<T> {
    Finished(Result<T, ProgramError>),
    Needs(InspectionRequest),
}

/// The status of one symlink operation, against the answers gathered so far.
pub fn inspect_symlink_operation_status(operation: &FileOperation, replies: &InspectionReplies) -> (res:
    InspectionProgress<SymlinkInspection>)
    ensures
        match symlink_inspection(
            *replies,
            InspectionWalk { kinds: 0, symlink_targets: 0, digests: 0 },
            operation@,
        ) {
            Err(q) => res matches InspectionProgress::Needs(r) && r@ == q,
            Ok((Ok(i), _)) => res matches InspectionProgress::Finished(Ok(r)) && r@ == i,
            Ok((Err(e), _)) => res matches InspectionProgress::Finished(Err(r)) && r@ == e,
        },
{
    let mut cursor = InspectionCursor::new();
    match inspect_symlink_with(operation, replies, &mut cursor) {
        Err(q) => InspectionProgress::Needs(q),
        Ok(outcome) => InspectionProgress::Finished(outcome),
    }
}

/// The status of one copy operation, against the answers gathered so far.
pub fn inspect_copy_operation_status(operation: &FileOperation, replies: &InspectionReplies) -> (res:
    InspectionProgress<CopyInspection>)
    ensures
        match copy_inspection(
            *replies,
            InspectionWalk { kinds: 0, symlink_targets: 0, digests: 0 },
            operation@,
        ) {
            Err(q) => res matches InspectionProgress::Needs(r) && r@ == q,
            Ok((Ok(i), _)) => res matches InspectionProgress::Finished(Ok(r)) && r@ == i,
            Ok((Err(e), _)) => res matches InspectionProgress::Finished(Err(r)) && r@ == e,
        },
{
    let mut cursor = InspectionCursor::new();
    match inspect_copy_with(operation, replies, &mut cursor) {
        Err(q) => InspectionProgress::Needs(q),
        Ok(outcome) => InspectionProgress::Finished(outcome),
    }
}

// ---------------------------------------------------------------------------
// Inspection of a plan
// ---------------------------------------------------------------------------

/// Whether an action entry is inspected: its source is available and it is
/// not skipped.
pub open spec fn inspectable(entry: PlannedOperationActionView) -> bool {
    entry.source_availability is Available && entry.skip_reason is None
}

/// The outcomes of the entries `entries[k..]`, appended to `acc`; the first
/// failing inspection decides the error.
pub open spec fn outcomes_from(
    replies: InspectionReplies,
    walk: InspectionWalk,
    entries: Seq<OperationEntryView>,
    k: int,
    acc: Seq<OperationInspectionOutcomeView>,
) -> Result<Result<Seq<OperationInspectionOutcomeView>, ProgramErrorView>, InspectionRequestView>
    decreases entries.len() - k,
{
    if k >= entries.len() || k < 0 {
        Ok(Ok(acc))
    } else {
        match entries[k] {
            OperationEntryView::Issue(issue) => outcomes_from(
                replies,
                walk,
                entries,
                k + 1,
                acc.push(OperationInspectionOutcomeView::PlanningIssue(issue)),
            ),
            OperationEntryView::Action(a) => if !inspectable(a) {
                outcomes_from(
                    replies,
                    walk,
                    entries,
                    k + 1,
                    acc.push(OperationInspectionOutcomeView::Unavailable(a)),
                )
            } else {
                match a.action {
                    crate::operation::OperationActionView::Symlink(op) => match symlink_inspection(
                        replies,
                        walk,
                        op,
                    ) {
                        Err(q) => Err(q),
                        Ok((Err(e), _)) => Ok(Err(e)),
                        Ok((Ok(i), w)) => outcomes_from(
                            replies,
                            w,
                            entries,
                            k + 1,
                            acc.push(OperationInspectionOutcomeView::Symlink(i)),
                        ),
                    },
                    crate::operation::OperationActionView::Copy(op) => match copy_inspection(
                        replies,
                        walk,
                        op,
                    ) {
                        Err(q) => Err(q),
                        Ok((Err(e), _)) => Ok(Err(e)),
                        Ok((Ok(i), w)) => outcomes_from(
                            replies,
                            w,
                            entries,
                            k + 1,
                            acc.push(OperationInspectionOutcomeView::Copy(i)),
                        ),
                    },
                }
            },
        }
    }
}

/// Where the inspection of a plan stands.
#[derive(Debug, PartialEq, Eq)]
pub enum PlanInspectionProgress {
    Finished(Result<OperationInspectionReport, ProgramError>),
    Needs(InspectionRequest),
}

/// The inspection of a plan against `replies`: one outcome per entry, in
/// order.
pub open spec fn plan_inspection(plan: OperationPlanView, replies: InspectionReplies) -> Result<
    Result<Seq<OperationInspectionOutcomeView>, ProgramErrorView>,
    InspectionRequestView,
> {
    outcomes_from(
        replies,
        InspectionWalk { kinds: 0, symlink_targets: 0, digests: 0 },
        plan.entries,
        0,
        Seq::empty(),
    )
}

/// Inspects every entry of a plan, with answers from `cursor` on.
pub fn inspect_plan_with(
    operation_plan: &OperationPlan,
    replies: &InspectionReplies,
    cursor: &mut InspectionCursor,
) -> (res: Result<Result<OperationInspectionReport, ProgramError>, InspectionRequest>)
    ensures
        match outcomes_from(*replies, old(cursor)@, operation_plan@.entries, 0, Seq::empty()) {
            Err(q) => res matches Err(r) && r@ == q,
            Ok(Ok(o)) => res matches Ok(Ok(r)) && r@.outcomes == o,
            Ok(Err(e)) => res matches Ok(Err(r)) && r@ == e,
        },
{
    let mut outcomes: Vec<OperationInspectionOutcome> = Vec::new();
    proof {
        assert(outcomes_view(outcomes@) =~= Seq::<OperationInspectionOutcomeView>::empty());
    }
    let mut k: usize = 0;
    while k < operation_plan.entries.len()
        invariant
            k <= operation_plan.entries.len(),
            outcomes_from(*replies, old(cursor)@, operation_plan@.entries, 0, Seq::empty())
                == outcomes_from(
                *replies,
                cursor@,
                operation_plan@.entries,
                k as int,
                outcomes_view(outcomes@),
            ),
        decreases operation_plan.entries.len() - k,
    {
        let ghost before = outcomes_view(outcomes@);
        assert(operation_plan@.entries[k as int] == operation_plan.entries@[k as int]@);
        let outcome = match &operation_plan.entries[k] {
            OperationEntry::Issue(issue) => OperationInspectionOutcome::PlanningIssue(issue.clone()),
            OperationEntry::Action(a) => {
                if !(a.source_availability.is_available() && a.skip_reason.is_none()) {
                    OperationInspectionOutcome::Unavailable(a.clone())
                } else {
                    match &a.action {
                        OperationAction::Symlink(op) => {
                            match inspect_symlink_with(op, replies, cursor)? {
                                Err(e) => return Ok(Err(e)),
                                Ok(i) => OperationInspectionOutcome::Symlink(i),
                            }
                        },
                        OperationAction::Copy(op) => {
                            match inspect_copy_with(op, replies, cursor)? {
                                Err(e) => return Ok(Err(e)),
                                Ok(i) => OperationInspectionOutcome::Copy(i),
                            }
                        },
                    }
                }
            },
        };
        outcomes.push(outcome);
        assert(outcomes_view(outcomes@) =~= before.push(outcome@));
        k += 1;
    }
    Ok(Ok(OperationInspectionReport { outcomes }))
}

/// Inspects status for every entry of an operation plan, against the
/// answers gathered so far.
pub fn inspect_operation_plan_status(operation_plan: &OperationPlan, replies: &InspectionReplies) -> (res:
    PlanInspectionProgress)
    ensures
        match plan_inspection(operation_plan@, *replies) {
            Err(q) => res matches PlanInspectionProgress::Needs(r) && r@ == q,
            Ok(Ok(o)) => res matches PlanInspectionProgress::Finished(Ok(r)) && r@.outcomes == o,
            Ok(Err(e)) => res matches PlanInspectionProgress::Finished(Err(r)) && r@ == e,
        },
{
    let mut cursor = InspectionCursor::new();
    match inspect_plan_with(operation_plan, replies, &mut cursor) {
        Err(q) => PlanInspectionProgress::Needs(q),
        Ok(outcome) => PlanInspectionProgress::Finished(outcome),
    }
}


// ---------------------------------------------------------------------------
// Log events of inspection
// ---------------------------------------------------------------------------

/// The outcome of inspecting a plan, as [`plan_inspection`] gives it.
pub open spec fn inspection_progress_view(progress: PlanInspectionProgress) -> Result<
    Result<Seq<OperationInspectionOutcomeView>, ProgramErrorView>,
    InspectionRequestView,
> {
    match progress {
        PlanInspectionProgress::Needs(q) => Err(q@),
        PlanInspectionProgress::Finished(Err(e)) => Ok(Err(e@)),
        PlanInspectionProgress::Finished(Ok(report)) => Ok(Ok(report@.outcomes)),
    }
}

/// The events inspection reports once it is over: its start, with the
/// number of entries, and on success the number of outcomes.
pub open spec fn inspection_log(
    plan: OperationPlanView,
    outcome: Result<Result<Seq<OperationInspectionOutcomeView>, ProgramErrorView>, InspectionRequestView>,
) -> Seq<LogEventView> {
    let start = event_of(
        RecordLevel::Debug,
        "gitenv::status"@,
        "inspect_operation_plan_status_start"@,
        "entries="@ + decimal(plan.entries.len()),
    );
    match outcome {
        Err(_) => Seq::empty(),
        Ok(Err(_)) => seq![start],
        Ok(Ok(outcomes)) => seq![
            start,
            event_of(
                RecordLevel::Info,
                "gitenv::status"@,
                "inspect_operation_plan_status_success"@,
                "outcomes="@ + decimal(outcomes.len()),
            ),
        ],
    }
}

/// The events of inspecting `operation_plan` that ended in `outcome` (see
/// [`inspection_log`]).
pub fn inspection_events(operation_plan: &OperationPlan, outcome: &PlanInspectionProgress) -> (res:
    Vec<LogEvent>)
    ensures
        events_view(res@) == inspection_log(operation_plan@, inspection_progress_view(*outcome)),
{
    let mut events: Vec<LogEvent> = Vec::new();
    if let PlanInspectionProgress::Needs(_) = outcome {
        assert(events_view(events@) =~= Seq::<LogEventView>::empty());
        return events;
    }
    let start = make_event(
        RecordLevel::Debug,
        "gitenv::status",
        "inspect_operation_plan_status_start",
        labelled_count("entries=", operation_plan.entries.len()),
    );
    let ghost start_view = start@;
    events.push(start);
    match outcome {
        PlanInspectionProgress::Finished(Ok(report)) => {
            let success = make_event(
                RecordLevel::Info,
                "gitenv::status",
                "inspect_operation_plan_status_success",
                labelled_count("outcomes=", report.outcomes.len()),
            );
            let ghost success_view = success@;
            events.push(success);
            assert(events_view(events@) =~= seq![start_view, success_view]);
        },
        _ => {
            assert(events_view(events@) =~= seq![start_view]);
        },
    }
    events
}


// ---------------------------------------------------------------------------
// Laws of inspection
// ---------------------------------------------------------------------------

/// Whether an inspection outcome answers a plan entry: an issue is reported
/// as is, an action that cannot be inspected as unavailable, and any other
/// action by the state of its own target.
pub open spec fn answers_entry(outcome: OperationInspectionOutcomeView, entry: OperationEntryView) -> bool {
    match entry {
        OperationEntryView::Issue(issue) => outcome == OperationInspectionOutcomeView::PlanningIssue(issue),
        OperationEntryView::Action(a) => if !inspectable(a) {
            outcome == OperationInspectionOutcomeView::Unavailable(a)
        } else {
            match a.action {
                crate::operation::OperationActionView::Symlink(op) => outcome matches OperationInspectionOutcomeView::Symlink(i)
                    && i.source == op.source && i.target == op.target,
                crate::operation::OperationActionView::Copy(op) => outcome matches OperationInspectionOutcomeView::Copy(i)
                    && i.source == op.source && i.target == op.target,
            }
        },
    }
}

proof fn lemma_outcomes_from_answer(
    replies: InspectionReplies,
    walk: InspectionWalk,
    entries: Seq<OperationEntryView>,
    k: int,
    acc: Seq<OperationInspectionOutcomeView>,
)
    requires
        0 <= k <= entries.len(),
        acc.len() == k,
    ensures
        outcomes_from(replies, walk, entries, k, acc) matches Ok(Ok(outcomes)) ==> outcomes.len()
            == entries.len() && outcomes.take(k) == acc && forall|i: int|
            k <= i < entries.len() ==> answers_entry(#[trigger] outcomes[i], entries[i]),
    decreases entries.len() - k,
{
    if k < entries.len() {
        let next = match entries[k] {
            OperationEntryView::Issue(issue) => Some((OperationInspectionOutcomeView::PlanningIssue(issue), walk)),
            OperationEntryView::Action(a) => if !inspectable(a) {
                Some((OperationInspectionOutcomeView::Unavailable(a), walk))
            } else {
                match a.action {
                    crate::operation::OperationActionView::Symlink(op) => match symlink_inspection(replies, walk, op) {
                        Ok((Ok(i), w)) => Some((OperationInspectionOutcomeView::Symlink(i), w)),
                        _ => None,
                    },
                    crate::operation::OperationActionView::Copy(op) => match copy_inspection(replies, walk, op) {
                        Ok((Ok(i), w)) => Some((OperationInspectionOutcomeView::Copy(i), w)),
                        _ => None,
                    },
                }
            },
        };
        if let Some((o, w)) = next {
            assert(answers_entry(o, entries[k]));
            lemma_outcomes_from_answer(replies, w, entries, k + 1, acc.push(o));
            if let Ok(Ok(outcomes)) = outcomes_from(replies, walk, entries, k, acc) {
                assert(outcomes.take(k) =~= outcomes.take(k + 1).take(k));
                assert(outcomes[k] == outcomes.take(k + 1)[k]);
            }
        }
    }
}

/// Inspection gives one outcome per plan entry, in order, each answering
/// its entry (see [`answers_entry`]).
pub proof fn lemma_one_inspection_per_entry(plan: OperationPlanView, replies: InspectionReplies)
    ensures
        plan_inspection(plan, replies) matches Ok(Ok(outcomes)) ==> outcomes.len() == plan.entries.len()
            && forall|i: int| 0 <= i < outcomes.len() ==> answers_entry(#[trigger] outcomes[i], plan.entries[i]),
{
    lemma_outcomes_from_answer(
        replies,
        InspectionWalk { kinds: 0, symlink_targets: 0, digests: 0 },
        plan.entries,
        0,
        Seq::empty(),
    );
}

} // verus!
