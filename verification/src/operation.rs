//! Operation planning: converts an [`IntentPlan`] into a fully resolved
//! [`OperationPlan`] by expanding source-relative paths and selections into
//! concrete file operations. Nothing is written here.
//!
//! Like intent planning, this stage is a pure function of its input and the
//! answers received so far ([`OperationReplies`]): it finishes, or names the
//! next question in [`OperationProgress::Needs`].

use vstd::prelude::*;

use crate::config::{ActionMode, SelectionType};
use crate::errors::{ProgramError, ProgramErrorView, SourceAvailability, SourceAvailabilityView, SourceUnreadableKind};
use crate::glob::{glob_matches, pattern_matches};
use crate::logging::{decimal, event_of, events_view, labelled_count, make_event, LogEvent, LogEventView, RecordLevel};
use crate::intent::{
    ConflictPolicy, IntentAction, IntentPlan, IntentSelectAction, IntentSource, ResolvedOptions,
};
use crate::text::{
    chars_of, expand_home_path, expand_home_prefixed_or_literal_path, home_relative, is_absolute,
    is_absolute_path, is_home_relative, join_path, last_separator_before, lemma_text_less_irreflexive,
    lemma_text_less_transitive, less_text, path_join,
    string_from_char_range, text_less, texts_view,
};

verus! {

// ---------------------------------------------------------------------------
// Plan types
// ---------------------------------------------------------------------------

/// Concrete, execution-shaped planning output.
#[derive(Debug, Clone, PartialEq, Eq)]
pub struct OperationPlan {
    /// Ordered list of concrete operations and planning issues.
    pub entries: Vec<OperationEntry>,
}

/// Ordered operation-plan entry.
#[derive(Debug, Clone, PartialEq, Eq)]
pub enum OperationEntry {
    Action(PlannedOperationAction),
    Issue(OperationPlanningIssue),
}

/// Concrete action entry plus the resolved readability of its source path.
#[derive(Debug, PartialEq, Eq)]
pub struct PlannedOperationAction {
    pub action: OperationAction,
    pub source_availability: SourceAvailability,
    pub skip_reason: Option<OperationSkipReason>,
}

/// Reason an otherwise-planned concrete operation should be skipped at apply time.
#[derive(Debug, Clone, Copy, PartialEq, Eq, Structural)]
pub enum OperationSkipReason {
    MissingTargetDirectory,
}

/// Planning issue that blocks selector expansion at a specific config position.
#[derive(Debug, PartialEq, Eq)]
pub struct OperationPlanningIssue {
    pub path: String,
    pub source_availability: SourceAvailability,
}

/// A concrete operation ready for status inspection or filesystem execution.
#[derive(Debug, PartialEq, Eq)]
pub enum OperationAction {
    Copy(FileOperation),
    Symlink(FileOperation),
}

/// A concrete file operation with fully resolved source and target paths.
#[derive(Debug, PartialEq, Eq)]
pub struct FileOperation {
    pub source: String,
    pub target: String,
    pub mkdir: bool,
    pub conflict_policy: ConflictPolicy,
}

pub struct FileOperationView {
    pub source: Seq<char>,
    pub target: Seq<char>,
    pub mkdir: bool,
    pub conflict_policy: ConflictPolicy,
}

pub enum OperationActionView {
    Copy(FileOperationView),
    Symlink(FileOperationView),
}

pub struct PlannedOperationActionView {
    pub action: OperationActionView,
    pub source_availability: SourceAvailabilityView,
    pub skip_reason: Option<OperationSkipReason>,
}

pub struct OperationPlanningIssueView {
    pub path: Seq<char>,
    pub source_availability: SourceAvailabilityView,
}

pub enum OperationEntryView {
    Action(PlannedOperationActionView),
    Issue(OperationPlanningIssueView),
}

pub struct OperationPlanView {
    pub entries: Seq<OperationEntryView>,
}

impl View for FileOperation {
    type V = FileOperationView;

    open spec fn view(&self) -> FileOperationView {
        FileOperationView {
            source: self.source@,
            target: self.target@,
            mkdir: self.mkdir,
            conflict_policy: self.conflict_policy,
        }
    }
}

impl View for OperationAction {
    type V = OperationActionView;

    open spec fn view(&self) -> OperationActionView {
        match self {
            OperationAction::Copy(op) => OperationActionView::Copy(op@),
            OperationAction::Symlink(op) => OperationActionView::Symlink(op@),
        }
    }
}

impl View for PlannedOperationAction {
    type V = PlannedOperationActionView;

    open spec fn view(&self) -> PlannedOperationActionView {
        PlannedOperationActionView {
            action: self.action@,
            source_availability: self.source_availability@,
            skip_reason: self.skip_reason,
        }
    }
}

impl View for OperationPlanningIssue {
    type V = OperationPlanningIssueView;

    open spec fn view(&self) -> OperationPlanningIssueView {
        OperationPlanningIssueView {
            path: self.path@,
            source_availability: self.source_availability@,
        }
    }
}

impl View for OperationEntry {
    type V = OperationEntryView;

    open spec fn view(&self) -> OperationEntryView {
        match self {
            OperationEntry::Action(a) => OperationEntryView::Action(a@),
            OperationEntry::Issue(i) => OperationEntryView::Issue(i@),
        }
    }
}

pub open spec fn entries_view(entries: Seq<OperationEntry>) -> Seq<OperationEntryView> {
    entries.map_values(|e: OperationEntry| e@)
}

impl View for OperationPlan {
    type V = OperationPlanView;

    open spec fn view(&self) -> OperationPlanView {
        OperationPlanView { entries: entries_view(self.entries@) }
    }
}

impl Clone for FileOperation {
    fn clone(&self) -> (res: Self)
        ensures
            res@ == self@,
    {
        FileOperation {
            source: self.source.clone(),
            target: self.target.clone(),
            mkdir: self.mkdir,
            conflict_policy: self.conflict_policy,
        }
    }
}

impl Clone for OperationAction {
    fn clone(&self) -> (res: Self)
        ensures
            res@ == self@,
    {
        match self {
            OperationAction::Copy(op) => OperationAction::Copy(op.clone()),
            OperationAction::Symlink(op) => OperationAction::Symlink(op.clone()),
        }
    }
}

impl Clone for PlannedOperationAction {
    fn clone(&self) -> (res: Self)
        ensures
            res@ == self@,
    {
        PlannedOperationAction {
            action: self.action.clone(),
            source_availability: self.source_availability.clone(),
            skip_reason: self.skip_reason,
        }
    }
}

impl Clone for OperationPlanningIssue {
    fn clone(&self) -> (res: Self)
        ensures
            res@ == self@,
    {
        OperationPlanningIssue {
            path: self.path.clone(),
            source_availability: self.source_availability.clone(),
        }
    }
}

/// The file operation inside an action, whatever its kind.
pub open spec fn operation_of(action: OperationActionView) -> FileOperationView {
    match action {
        OperationActionView::Copy(op) => op,
        OperationActionView::Symlink(op) => op,
    }
}

impl OperationAction {
    /// The source path of the operation.
    pub fn source(&self) -> (res: &String)
        ensures
            res@ == operation_of(self@).source,
    {
        match self {
            OperationAction::Copy(operation) => &operation.source,
            OperationAction::Symlink(operation) => &operation.source,
        }
    }

    /// The target path of the operation.
    pub fn target(&self) -> (res: &String)
        ensures
            res@ == operation_of(self@).target,
    {
        match self {
            OperationAction::Copy(operation) => &operation.target,
            OperationAction::Symlink(operation) => &operation.target,
        }
    }
}

// ---------------------------------------------------------------------------
// Blocking diagnostics
// ---------------------------------------------------------------------------

/// How an unavailable source is described; nothing for an available one.
pub open spec fn availability_suffix(availability: SourceAvailabilityView) -> Option<Seq<char>> {
    match availability {
        SourceAvailabilityView::Available => None,
        SourceAvailabilityView::Missing => Some("is missing"@),
        SourceAvailabilityView::Unreadable { message, .. } => Some(
            "is unreadable ("@ + message + ")"@,
        ),
    }
}

impl SourceAvailability {
    /// How an unavailable source is described; `None` when it is available.
    pub fn diagnostic_suffix(&self) -> (res: Option<String>)
        ensures
            match availability_suffix(self@) {
                Some(s) => res matches Some(r) && r@ == s,
                None => res is None,
            },
    {
        match self {
            SourceAvailability::Available => None,
            SourceAvailability::Missing => Some(String::from_str("is missing")),
            SourceAvailability::Unreadable { message, .. } => {
                let mut text = String::from_str("is unreadable (");
                text.append(message.as_str());
                text.append(")");
                Some(text)
            },
        }
    }
}

/// The diagnostic of one entry whose source is unavailable.
pub open spec fn entry_diagnostic(entry: OperationEntryView) -> Option<Seq<char>> {
    match entry {
        OperationEntryView::Action(a) => match availability_suffix(a.source_availability) {
            Some(suffix) => Some(
                "source "@ + operation_of(a.action).source + " for "@ + operation_of(
                    a.action,
                ).target + " "@ + suffix,
            ),
            None => None,
        },
        OperationEntryView::Issue(i) => match availability_suffix(i.source_availability) {
            Some(suffix) => Some("source root "@ + i.path + " "@ + suffix),
            None => None,
        },
    }
}

/// The diagnostics of every entry with an unavailable source, in order.
pub open spec fn blocking_diagnostics(entries: Seq<OperationEntryView>) -> Seq<Seq<char>>
    decreases entries.len(),
{
    if entries.len() == 0 {
        Seq::empty()
    } else {
        let rest = blocking_diagnostics(entries.drop_last());
        match entry_diagnostic(entries.last()) {
            Some(d) => rest.push(d),
            None => rest,
        }
    }
}

impl OperationPlan {
    /// One diagnostic for every entry whose source is unavailable, in plan
    /// order; apply refuses to start while there is any.
    pub fn apply_blocking_diagnostics(&self) -> (res: Vec<String>)
        ensures
            texts_view(res@) == blocking_diagnostics(self@.entries),
    {
        let mut res: Vec<String> = Vec::new();
        let mut i: usize = 0;
        while i < self.entries.len()
            invariant
                i <= self.entries.len(),
                texts_view(res@) == blocking_diagnostics(entries_view(self.entries@).take(i as int)),
            decreases self.entries.len() - i,
        {
            let ghost before = res@;
            assert(entries_view(self.entries@).take(i as int + 1).drop_last() == entries_view(
                self.entries@,
            ).take(i as int));
            match &self.entries[i] {
                OperationEntry::Action(action) => {
                    match action.source_availability.diagnostic_suffix() {
                        Some(suffix) => {
                            let mut text = String::from_str("source ");
                            text.append(action.action.source().as_str());
                            text.append(" for ");
                            text.append(action.action.target().as_str());
                            text.append(" ");
                            text.append(suffix.as_str());
                            res.push(text);
                            assert(texts_view(res@) =~= texts_view(before).push(text@));
                        },
                        None => {},
                    }
                },
                OperationEntry::Issue(issue) => {
                    match issue.source_availability.diagnostic_suffix() {
                        Some(suffix) => {
                            let mut text = String::from_str("source root ");
                            text.append(issue.path.as_str());
                            text.append(" ");
                            text.append(suffix.as_str());
                            res.push(text);
                            assert(texts_view(res@) =~= texts_view(before).push(text@));
                        },
                        None => {},
                    }
                },
            }
            i += 1;
        }
        assert(entries_view(self.entries@).take(self.entries.len() as int) == entries_view(
            self.entries@,
        ));
        res
    }
}

// ---------------------------------------------------------------------------
// Questions and answers
// ---------------------------------------------------------------------------

/// Which kind of readable source a check asks for.
#[derive(Debug, Clone, Copy, PartialEq, Eq, Structural)]
pub enum SourcePathRequirement {
    /// Readable as a file (copy and file actions, selected entries).
    File,
    /// Readable as a directory (selection roots).
    Directory,
    /// Readable as either (symlink sources).
    Symlink,
}

/// How reading a source path failed.
#[derive(Debug, Clone, Copy, PartialEq, Eq, Structural)]
pub enum SourceReadErrorKind {
    Missing,
    PermissionDenied,
    UnexpectedIo,
}

/// A failure to read a source path.
#[derive(Debug, PartialEq, Eq)]
pub struct SourceReadError {
    pub path: String,
    pub kind: SourceReadErrorKind,
    pub message: String,
}

impl Clone for SourceReadError {
    fn clone(&self) -> (res: Self)
        ensures
            res == *self,
    {
        SourceReadError { path: self.path.clone(), kind: self.kind, message: self.message.clone() }
    }
}

/// What a source path is, as seen before it is read. For a symlink
/// requirement the link is followed first, so `Symlink` is seen only for the
/// other requirements.
#[derive(Debug, Clone, Copy, PartialEq, Eq, Structural)]
pub enum SourceShape {
    File,
    Directory,
    Symlink,
    Other,
}

/// How a readability check goes on once the shape of the path is known.
#[derive(Debug, Clone, Copy, PartialEq, Eq, Structural)]
pub enum SourceAccess {
    /// Open the path as a file.
    OpenFile,
    /// Open the path as a directory.
    ReadDirectory,
}

/// Whether the shape of a source is taken after following a symlink: only
/// symlink sources may point anywhere.
pub fn follows_links(requirement: SourcePathRequirement) -> (res: bool)
    ensures
        res == (requirement == SourcePathRequirement::Symlink),
{
    match requirement {
        SourcePathRequirement::Symlink => true,
        _ => false,
    }
}

/// The access a requirement asks for on a path of the given shape, or the
/// message of the refusal.
pub open spec fn source_access_spec(requirement: SourcePathRequirement, shape: SourceShape) -> Result<
    SourceAccess,
    Seq<char>,
> {
    match requirement {
        SourcePathRequirement::File => if shape == SourceShape::File || shape == SourceShape::Symlink {
            Ok(SourceAccess::OpenFile)
        } else {
            Err("not a readable file"@)
        },
        SourcePathRequirement::Directory => if shape == SourceShape::Directory {
            Ok(SourceAccess::ReadDirectory)
        } else {
            Err("not a readable directory"@)
        },
        SourcePathRequirement::Symlink => match shape {
            SourceShape::Directory => Ok(SourceAccess::ReadDirectory),
            SourceShape::File => Ok(SourceAccess::OpenFile),
            _ => Err("not a readable symlink source"@),
        },
    }
}

/// Decides how to read a source path of the given shape: a file requirement
/// takes a file or a symlink, a directory requirement a directory, a symlink
/// requirement (seen through the link) either. Any other shape is refused as
/// an unexpected read failure of `path`.
pub fn source_access(requirement: SourcePathRequirement, shape: SourceShape, path: &String) -> (res:
    Result<SourceAccess, SourceReadError>)
    ensures
        match source_access_spec(requirement, shape) {
            Ok(access) => res == Ok::<SourceAccess, SourceReadError>(access),
            Err(message) => res matches Err(e) && e.path@ == path@ && e.kind
                == SourceReadErrorKind::UnexpectedIo && e.message@ == message,
        },
{
    let refusal = match requirement {
        SourcePathRequirement::File => match shape {
            SourceShape::File | SourceShape::Symlink => {
                return Ok(SourceAccess::OpenFile);
            },
            _ => "not a readable file",
        },
        SourcePathRequirement::Directory => match shape {
            SourceShape::Directory => {
                return Ok(SourceAccess::ReadDirectory);
            },
            _ => "not a readable directory",
        },
        SourcePathRequirement::Symlink => match shape {
            SourceShape::Directory => {
                return Ok(SourceAccess::ReadDirectory);
            },
            SourceShape::File => {
                return Ok(SourceAccess::OpenFile);
            },
            _ => "not a readable symlink source",
        },
    };
    Err(
        SourceReadError {
            path: path.clone(),
            kind: SourceReadErrorKind::UnexpectedIo,
            message: String::from_str(refusal),
        },
    )
}

/// The kind of a directory child.
#[derive(Debug, Clone, Copy, PartialEq, Eq, Structural)]
pub enum DirectoryEntryKind {
    File,
    Directory,
}

/// One child of a listed directory: its name and whether it is a directory.
#[derive(Debug, PartialEq, Eq)]
pub struct DirectoryEntry {
    pub name: String,
    pub kind: DirectoryEntryKind,
}

impl Clone for DirectoryEntry {
    fn clone(&self) -> (res: Self)
        ensures
            res == *self,
    {
        DirectoryEntry { name: self.name.clone(), kind: self.kind }
    }
}

/// A question operation planning needs answered.
#[derive(Debug, PartialEq, Eq)]
pub enum OperationRequest {
    /// Whether the path can be read as the requirement says.
    SourceReadable { path: String, requirement: SourcePathRequirement },
    /// The children of a directory, in any order.
    DirectoryListing(String),
    /// Whether the directory containing the path exists.
    TargetDirectoryExists(String),
}

pub enum OperationRequestView {
    SourceReadable { path: Seq<char>, requirement: SourcePathRequirement },
    DirectoryListing(Seq<char>),
    TargetDirectoryExists(Seq<char>),
}

impl View for OperationRequest {
    type V = OperationRequestView;

    open spec fn view(&self) -> OperationRequestView {
        match self {
            OperationRequest::SourceReadable { path, requirement } =>
                OperationRequestView::SourceReadable { path: path@, requirement: *requirement },
            OperationRequest::DirectoryListing(p) => OperationRequestView::DirectoryListing(p@),
            OperationRequest::TargetDirectoryExists(p) => OperationRequestView::TargetDirectoryExists(
                p@,
            ),
        }
    }
}

/// The answers received so far, one list per kind of question, each in the
/// order the questions were asked.
pub struct OperationReplies {
    pub readability: Vec<Result<(), SourceReadError>>,
    pub listings: Vec<Result<Vec<DirectoryEntry>, SourceReadError>>,
    pub target_directories: Vec<bool>,
}

impl OperationReplies {
    /// No answers yet.
    pub fn new() -> (res: Self)
        ensures
            res.readability@.len() == 0,
            res.listings@.len() == 0,
            res.target_directories@.len() == 0,
    {
        OperationReplies {
            readability: Vec::new(),
            listings: Vec::new(),
            target_directories: Vec::new(),
        }
    }
}

/// Where operation planning stands.
#[derive(Debug, PartialEq, Eq)]
pub enum OperationProgress {
    Finished(Result<OperationPlan, ProgramError>),
    Needs(OperationRequest),
}

pub enum OperationProgressView {
    Finished(Result<OperationPlanView, ProgramErrorView>),
    Needs(OperationRequestView),
}

impl View for OperationProgress {
    type V = OperationProgressView;

    open spec fn view(&self) -> OperationProgressView {
        match self {
            OperationProgress::Finished(Ok(p)) => OperationProgressView::Finished(Ok(p@)),
            OperationProgress::Finished(Err(e)) => OperationProgressView::Finished(Err(e@)),
            OperationProgress::Needs(r) => OperationProgressView::Needs(r@),
        }
    }
}

// ---------------------------------------------------------------------------
// Path resolution
// ---------------------------------------------------------------------------

/// The repository root with `~` expanded.
pub open spec fn repository_root(repository: Seq<char>, home: Seq<char>) -> Seq<char> {
    expand_home_path(repository, home)
}

/// A source directory: absolute or home-relative as written (`~`
/// expanded), otherwise relative to the repository root.
pub open spec fn source_root(repository_root: Seq<char>, from: Seq<char>, home: Seq<char>) -> Seq<char> {
    if is_absolute_path(from) || is_home_relative(from) {
        expand_home_path(from, home)
    } else {
        path_join(repository_root, from)
    }
}

/// A target directory: absolute or home-relative as written (`~` expanded),
/// otherwise relative to the home directory.
pub open spec fn target_directory(to: Seq<char>, home: Seq<char>) -> Seq<char> {
    if is_absolute_path(to) || is_home_relative(to) {
        expand_home_path(to, home)
    } else {
        path_join(home, to)
    }
}

fn resolve_source_root(repository_root: &String, source_from: &String, home_directory: &String) -> (res:
    String)
    ensures
        res@ == source_root(repository_root@, source_from@, home_directory@),
{
    if is_absolute(source_from) || home_relative(source_from) {
        expand_home_prefixed_or_literal_path(source_from, home_directory)
    } else {
        join_path(repository_root, source_from)
    }
}

fn resolve_target_directory(target_directory: &String, home_directory: &String) -> (res: String)
    ensures
        res@ == crate::operation::target_directory(target_directory@, home_directory@),
{
    if is_absolute(target_directory) || home_relative(target_directory) {
        expand_home_prefixed_or_literal_path(target_directory, home_directory)
    } else {
        join_path(home_directory, target_directory)
    }
}

/// The concrete operation for `source_file` under `source_root`, placed as
/// `target_name` in the target directory of `options`.
pub open spec fn planned_action(
    source_root: Seq<char>,
    source_file: Seq<char>,
    target_name: Seq<char>,
    options: ResolvedOptions,
    home: Seq<char>,
) -> OperationActionView {
    let op = FileOperationView {
        source: path_join(source_root, source_file),
        target: path_join(target_directory(options.to@, home), target_name),
        mkdir: options.mkdir,
        conflict_policy: options.conflict_policy,
    };
    match options.mode {
        ActionMode::Copy => OperationActionView::Copy(op),
        ActionMode::Symlink => OperationActionView::Symlink(op),
    }
}

fn operation_action(
    source_root: &String,
    source_file: &String,
    target_file_name: &String,
    options: &ResolvedOptions,
    home_directory: &String,
) -> (res: OperationAction)
    ensures
        res@ == planned_action(source_root@, source_file@, target_file_name@, *options, home_directory@),
{
    let target_dir = resolve_target_directory(&options.to, home_directory);
    let file_operation = FileOperation {
        source: join_path(source_root, source_file),
        target: join_path(&target_dir, target_file_name),
        mkdir: options.mkdir,
        conflict_policy: options.conflict_policy,
    };
    match options.mode {
        ActionMode::Copy => OperationAction::Copy(file_operation),
        ActionMode::Symlink => OperationAction::Symlink(file_operation),
    }
}

// ---------------------------------------------------------------------------
// Availability
// ---------------------------------------------------------------------------

/// The availability a failed read stands for.
pub open spec fn availability_of_error(error: SourceReadError) -> SourceAvailabilityView {
    match error.kind {
        SourceReadErrorKind::Missing => SourceAvailabilityView::Missing,
        SourceReadErrorKind::PermissionDenied => SourceAvailabilityView::Unreadable {
            kind: SourceUnreadableKind::PermissionDenied,
            message: error.message@,
        },
        SourceReadErrorKind::UnexpectedIo => SourceAvailabilityView::Unreadable {
            kind: SourceUnreadableKind::UnexpectedIo,
            message: error.message@,
        },
    }
}

/// The availability a readability check stands for.
pub open spec fn availability_of(result: Result<(), SourceReadError>) -> SourceAvailabilityView {
    match result {
        Ok(()) => SourceAvailabilityView::Available,
        Err(e) => availability_of_error(e),
    }
}

/// The availability a failed read stands for.
pub fn source_availability_from_error(error: &SourceReadError) -> (res: SourceAvailability)
    ensures
        res@ == availability_of_error(*error),
{
    match error.kind {
        SourceReadErrorKind::Missing => SourceAvailability::Missing,
        SourceReadErrorKind::PermissionDenied => SourceAvailability::Unreadable {
            kind: SourceUnreadableKind::PermissionDenied,
            message: error.message.clone(),
        },
        SourceReadErrorKind::UnexpectedIo => SourceAvailability::Unreadable {
            kind: SourceUnreadableKind::UnexpectedIo,
            message: error.message.clone(),
        },
    }
}

/// The availability a readability check stands for.
pub fn source_availability_from_result(result: &Result<(), SourceReadError>) -> (res:
    SourceAvailability)
    ensures
        res@ == availability_of(*result),
{
    match result {
        Ok(()) => SourceAvailability::Available,
        Err(error) => source_availability_from_error(error),
    }
}

// ---------------------------------------------------------------------------
// Directory listing
// ---------------------------------------------------------------------------

/// Whether a listing with `remaining_depth` levels left may enter a
/// subdirectory; `None` means unlimited.
pub open spec fn may_descend(remaining_depth: Option<usize>) -> bool {
    match remaining_depth {
        None => true,
        Some(depth) => depth > 0,
    }
}

/// The depth left one level further down; it never drops below zero.
pub open spec fn depth_below(remaining_depth: Option<usize>) -> Option<usize> {
    match remaining_depth {
        None => None,
        Some(depth) => Some(if depth > 0 { (depth - 1) as usize } else { 0 }),
    }
}

/// Whether a listing with `remaining_depth` levels left may enter a
/// subdirectory.
pub fn can_descend(remaining_depth: Option<usize>) -> (res: bool)
    ensures
        res == may_descend(remaining_depth),
{
    match remaining_depth {
        None => true,
        Some(depth) => depth > 0,
    }
}

/// The depth left one level further down, saturating at zero.
pub fn decrement_depth(remaining_depth: Option<usize>) -> (res: Option<usize>)
    ensures
        res == depth_below(remaining_depth),
{
    match remaining_depth {
        None => None,
        Some(depth) => Some(depth.saturating_sub(1)),
    }
}

/// `sorted` with `entry` placed after every entry whose name does not order
/// after its own (so entries with equal names keep their order).
pub open spec fn insert_by_name(sorted: Seq<DirectoryEntry>, entry: DirectoryEntry) -> Seq<
    DirectoryEntry,
>
    decreases sorted.len(),
{
    if sorted.len() == 0 {
        seq![entry]
    } else if text_less(entry.name@, sorted[0].name@, false) {
        seq![entry] + sorted
    } else {
        seq![sorted[0]] + insert_by_name(sorted.drop_first(), entry)
    }
}

/// `entries` stably sorted by name.
pub open spec fn sort_by_name(entries: Seq<DirectoryEntry>) -> Seq<DirectoryEntry>
    decreases entries.len(),
{
    if entries.len() == 0 {
        Seq::empty()
    } else {
        insert_by_name(sort_by_name(entries.drop_last()), entries.last())
    }
}

fn insert_entry_by_name(sorted: &mut Vec<DirectoryEntry>, entry: DirectoryEntry)
    ensures
        final(sorted)@ == insert_by_name(old(sorted)@, entry),
{
    let ghost start = sorted@;
    let mut i: usize = 0;
    assert(start.skip(0) == start);
    assert(start.take(0) + start == start);
    while i < sorted.len()
        invariant
            i <= sorted.len(),
            sorted@ == start,
            start == old(sorted)@,
            insert_by_name(start, entry) == start.take(i as int) + insert_by_name(
                start.skip(i as int),
                entry,
            ),
        decreases sorted.len() - i,
    {
        if less_text(&entry.name, &sorted[i].name, false) {
            assert(insert_by_name(start.skip(i as int), entry) == seq![entry] + start.skip(i as int));
            sorted.insert(i, entry);
            assert(sorted@ =~= start.take(i as int) + (seq![entry] + start.skip(i as int)));
            return;
        }
        assert(start.skip(i as int).drop_first() == start.skip(i as int + 1));
        assert(start.take(i as int + 1) == start.take(i as int) + seq![start[i as int]]);
        i += 1;
    }
    assert(start.skip(i as int) =~= Seq::<DirectoryEntry>::empty());
    sorted.push(entry);
    assert(sorted@ =~= start.take(i as int) + seq![entry]);
}

fn sorted_by_name(entries: &Vec<DirectoryEntry>) -> (res: Vec<DirectoryEntry>)
    ensures
        res@ == sort_by_name(entries@),
{
    let mut res: Vec<DirectoryEntry> = Vec::new();
    let mut i: usize = 0;
    while i < entries.len()
        invariant
            i <= entries.len(),
            res@ == sort_by_name(entries@.take(i as int)),
        decreases entries.len() - i,
    {
        assert(entries@.take(i as int + 1).drop_last() == entries@.take(i as int));
        insert_entry_by_name(&mut res, entries[i].clone());
        i += 1;
    }
    assert(entries@.take(entries.len() as int) == entries@);
    res
}

/// A measure of the listing answers left after `used` of them.
pub open spec fn listings_left(replies: OperationReplies, used: nat) -> nat {
    if used <= replies.listings@.len() {
        (replies.listings@.len() - used) as nat
    } else {
        0
    }
}

/// What listing a directory tree came to: the source-relative paths of its
/// files (or the first read failure), and how many listing answers it took.
pub type ListingResult = (Result<Seq<Seq<char>>, SourceReadError>, nat);

/// Lists `directory` (found at `prefix` below the selection root), appending
/// the source-relative paths of its files to `acc`: children in name order,
/// files as they come, subdirectories entered depth first while the depth
/// allows. `used` listing answers have been taken before.
pub open spec fn collect_entries(
    replies: OperationReplies,
    directory: Seq<char>,
    prefix: Seq<char>,
    depth: Option<usize>,
    used: nat,
    acc: Seq<Seq<char>>,
) -> Result<ListingResult, OperationRequestView>
    decreases listings_left(replies, used), 0int,
{
    if used >= replies.listings@.len() {
        Err(OperationRequestView::DirectoryListing(directory))
    } else {
        match replies.listings@[used as int] {
            Err(e) => Ok((Err(e), 1)),
            Ok(children) => match children_from(
                replies,
                sort_by_name(children@),
                0,
                directory,
                prefix,
                depth,
                used + 1,
                acc,
            ) {
                Err(q) => Err(q),
                Ok((res, taken)) => Ok((res, 1 + taken)),
            },
        }
    }
}

/// The children `sorted[i..]` of `directory`, as in [`collect_entries`].
pub open spec fn children_from(
    replies: OperationReplies,
    sorted: Seq<DirectoryEntry>,
    i: int,
    directory: Seq<char>,
    prefix: Seq<char>,
    depth: Option<usize>,
    used: nat,
    acc: Seq<Seq<char>>,
) -> Result<ListingResult, OperationRequestView>
    decreases listings_left(replies, used), sorted.len() - i + 1,
{
    if i >= sorted.len() || i < 0 {
        Ok((Ok(acc), 0))
    } else {
        let child = sorted[i];
        let relative = path_join(prefix, child.name@);
        match child.kind {
            DirectoryEntryKind::File => children_from(
                replies,
                sorted,
                i + 1,
                directory,
                prefix,
                depth,
                used,
                acc.push(relative),
            ),
            DirectoryEntryKind::Directory => if may_descend(depth) {
                match collect_entries(
                    replies,
                    path_join(directory, child.name@),
                    relative,
                    depth_below(depth),
                    used,
                    acc,
                ) {
                    Err(q) => Err(q),
                    Ok((Err(e), taken)) => Ok((Err(e), taken)),
                    Ok((Ok(acc2), taken)) => match children_from(
                        replies,
                        sorted,
                        i + 1,
                        directory,
                        prefix,
                        depth,
                        used + taken,
                        acc2,
                    ) {
                        Err(q) => Err(q),
                        Ok((res, more)) => Ok((res, taken + more)),
                    },
                }
            } else {
                children_from(replies, sorted, i + 1, directory, prefix, depth, used, acc)
            },
        }
    }
}

struct Cursor {
    reads: usize,
    listings: usize,
    directories: usize,
}

fn collect_directory_entries(
    replies: &OperationReplies,
    cursor: &mut Cursor,
    directory: &String,
    relative_prefix: &String,
    remaining_depth: Option<usize>,
    entries: &mut Vec<String>,
) -> (res: Result<Result<(), SourceReadError>, OperationRequest>)
    requires
        old(cursor).listings <= replies.listings@.len(),
    ensures
        match collect_entries(
            *replies,
            directory@,
            relative_prefix@,
            remaining_depth,
            old(cursor).listings as nat,
            texts_view(old(entries)@),
        ) {
            Err(q) => res matches Err(r) && r@ == q,
            Ok((Err(e), taken)) => res == Ok::<Result<(), SourceReadError>, OperationRequest>(Err(e))
                && final(cursor).listings == old(cursor).listings + taken,
            Ok((Ok(acc), taken)) => res == Ok::<Result<(), SourceReadError>, OperationRequest>(Ok(()))
                && texts_view(final(entries)@) == acc && final(cursor).listings == old(
                cursor,
            ).listings + taken,
        },
        final(cursor).listings <= replies.listings@.len(),
        final(cursor).reads == old(cursor).reads,
        final(cursor).directories == old(cursor).directories,
    decreases replies.listings@.len() - old(cursor).listings, 0int,
{
    if cursor.listings >= replies.listings.len() {
        return Err(OperationRequest::DirectoryListing(directory.clone()));
    }
    let index = cursor.listings;
    cursor.listings = cursor.listings + 1;
    let children = match &replies.listings[index] {
        Err(e) => return Ok(Err(e.clone())),
        Ok(children) => sorted_by_name(children),
    };
    let ghost sorted = children@;
    let ghost base = index as nat + 1;
    assert(collect_entries(
        *replies,
        directory@,
        relative_prefix@,
        remaining_depth,
        old(cursor).listings as nat,
        texts_view(old(entries)@),
    ) == (match children_from(
        *replies,
        sorted,
        0,
        directory@,
        relative_prefix@,
        remaining_depth,
        base,
        texts_view(old(entries)@),
    ) {
        Err(q) => Err(q),
        Ok((res, taken)) => Ok((res, 1 + taken)),
    }));
    let mut i: usize = 0;
    while i < children.len()
        invariant
            i <= children.len(),
            children@ == sorted,
            base <= cursor.listings <= replies.listings@.len(),
            cursor.reads == old(cursor).reads,
            cursor.directories == old(cursor).directories,
            base == old(cursor).listings + 1,
            collect_entries(
                *replies,
                directory@,
                relative_prefix@,
                remaining_depth,
                old(cursor).listings as nat,
                texts_view(old(entries)@),
            ) == (match children_from(
                *replies,
                sorted,
                0,
                directory@,
                relative_prefix@,
                remaining_depth,
                base,
                texts_view(old(entries)@),
            ) {
                Err(q) => Err(q),
                Ok((res, taken)) => Ok((res, 1 + taken)),
            }),
            children_from(
                *replies,
                sorted,
                0,
                directory@,
                relative_prefix@,
                remaining_depth,
                base,
                texts_view(old(entries)@),
            ) == (match children_from(
                *replies,
                sorted,
                i as int,
                directory@,
                relative_prefix@,
                remaining_depth,
                cursor.listings as nat,
                texts_view(entries@),
            ) {
                Err(q) => Err(q),
                Ok((res, more)) => Ok((res, ((cursor.listings - base) + more) as nat)),
            }),
        decreases children.len() - i,
    {
        let child = &children[i];
        let relative_path = join_path(relative_prefix, &child.name);
        match child.kind {
            DirectoryEntryKind::File => {
                let ghost before = entries@;
                entries.push(relative_path);
                assert(texts_view(entries@) =~= texts_view(before).push(
                    path_join(relative_prefix@, child.name@),
                ));
            },
            DirectoryEntryKind::Directory => {
                if can_descend(remaining_depth) {
                    let child_path = join_path(directory, &child.name);
                    let next_depth = decrement_depth(remaining_depth);
                    match collect_directory_entries(
                        replies,
                        cursor,
                        &child_path,
                        &relative_path,
                        next_depth,
                        entries,
                    ) {
                        Err(q) => return Err(q),
                        Ok(Err(e)) => return Ok(Err(e)),
                        Ok(Ok(())) => {},
                    }
                }
            },
        }
        i += 1;
    }
    Ok(Ok(()))
}

/// Lists the files below `path`, as source-relative paths; `max_depth`
/// bounds how many directory levels are entered (`None`: unbounded).
pub open spec fn list_entries(
    replies: OperationReplies,
    path: Seq<char>,
    max_depth: Option<usize>,
    used: nat,
) -> Result<ListingResult, OperationRequestView> {
    collect_entries(replies, path, Seq::empty(), max_depth, used, Seq::empty())
}

// ---------------------------------------------------------------------------
// Selection
// ---------------------------------------------------------------------------

/// The last component of a source-relative path.
pub open spec fn entry_name(entry: Seq<char>) -> Seq<char> {
    match last_separator_before(entry, entry.len() as int) {
        Some(i) => entry.skip(i + 1),
        None => entry,
    }
}

/// Whether an entry is chosen: its name fits the selection type, and no
/// exclude pattern matches its source-relative path.
pub open spec fn entry_selected(
    entry: Seq<char>,
    selection_type: SelectionType,
    excludes: Seq<Seq<char>>,
) -> bool {
    let name = entry_name(entry);
    let dotted = name.len() > 0 && name[0] == '.';
    let by_type = match selection_type {
        SelectionType::Dot => dotted,
        SelectionType::NonDot => !dotted,
        SelectionType::All => true,
    };
    by_type && !(exists|k: int| 0 <= k < excludes.len() && glob_matches(#[trigger] excludes[k], entry))
}

/// The chosen entries, in order.
pub open spec fn selected_entries(
    entries: Seq<Seq<char>>,
    selection_type: SelectionType,
    excludes: Seq<Seq<char>>,
) -> Seq<Seq<char>>
    decreases entries.len(),
{
    if entries.len() == 0 {
        Seq::empty()
    } else {
        let rest = selected_entries(entries.drop_last(), selection_type, excludes);
        if entry_selected(entries.last(), selection_type, excludes) {
            rest.push(entries.last())
        } else {
            rest
        }
    }
}

fn name_of_entry(entry: &String) -> (res: String)
    ensures
        res@ == entry_name(entry@),
{
    let chars = chars_of(entry.as_str());
    let mut end: usize = chars.len();
    while end > 0 && chars[end - 1] != '/'
        invariant
            end <= chars.len(),
            last_separator_before(chars@, end as int) == last_separator_before(
                chars@,
                chars.len() as int,
            ),
        decreases end,
    {
        end -= 1;
    }
    if end == 0 {
        entry.clone()
    } else {
        assert(last_separator_before(chars@, end as int) == Some(end as int - 1));
        assert(chars@.subrange(end as int, chars@.len() as int) == chars@.skip(end as int));
        string_from_char_range(&chars, end, chars.len())
    }
}

fn any_pattern_matches(patterns: &Vec<String>, entry: &String) -> (res: bool)
    ensures
        res == (exists|k: int| 0 <= k < patterns@.len() && glob_matches(
            #[trigger] texts_view(patterns@)[k],
            entry@,
        )),
{
    let mut i: usize = 0;
    while i < patterns.len()
        invariant
            i <= patterns.len(),
            forall|k: int| 0 <= k < i ==> !glob_matches(#[trigger] texts_view(patterns@)[k], entry@),
        decreases patterns.len() - i,
    {
        if pattern_matches(&patterns[i], entry) {
            assert(glob_matches(texts_view(patterns@)[i as int], entry@));
            return true;
        }
        i += 1;
    }
    false
}

/// Whether an entry is chosen by the selection type and the excludes.
pub fn should_include_selection_entry(
    entry: &String,
    selection_type: SelectionType,
    excludes: &Vec<String>,
) -> (res: bool)
    ensures
        res == entry_selected(entry@, selection_type, texts_view(excludes@)),
{
    let name = chars_of(name_of_entry(entry).as_str());
    let dotted = name.len() > 0 && name[0] == '.';
    let by_type = match selection_type {
        SelectionType::Dot => dotted,
        SelectionType::NonDot => !dotted,
        SelectionType::All => true,
    };
    if !by_type {
        return false;
    }
    let excluded = any_pattern_matches(excludes, entry);
    assert(excluded == (exists|k: int|
        0 <= k < texts_view(excludes@).len() && glob_matches(#[trigger] texts_view(excludes@)[k], entry@)));
    !excluded
}

fn select_entries(entries: &Vec<String>, selection_type: SelectionType, excludes: &Vec<String>) -> (res:
    Vec<String>)
    ensures
        texts_view(res@) == selected_entries(texts_view(entries@), selection_type, texts_view(excludes@)),
{
    let mut res: Vec<String> = Vec::new();
    let ghost all = texts_view(entries@);
    let mut i: usize = 0;
    while i < entries.len()
        invariant
            i <= entries.len(),
            all == texts_view(entries@),
            texts_view(res@) == selected_entries(all.take(i as int), selection_type, texts_view(excludes@)),
        decreases entries.len() - i,
    {
        assert(all.take(i as int + 1).drop_last() == all.take(i as int));
        assert(all.take(i as int + 1).last() == entries@[i as int]@);
        if should_include_selection_entry(&entries[i], selection_type, excludes) {
            let ghost before = res@;
            res.push(entries[i].clone());
            assert(texts_view(res@) =~= texts_view(before).push(entries@[i as int]@));
        }
        i += 1;
    }
    assert(all.take(entries.len() as int) == all);
    res
}

// ---------------------------------------------------------------------------
// The plan
// ---------------------------------------------------------------------------

/// How far planning has used each kind of answer.
pub struct OperationWalk {
    pub reads: nat,
    pub listings: nat,
    pub directories: nat,
}

/// Checks that `path` is readable as `requirement` says.
pub open spec fn ask_readable(
    replies: OperationReplies,
    walk: OperationWalk,
    path: Seq<char>,
    requirement: SourcePathRequirement,
) -> Result<(Result<(), SourceReadError>, OperationWalk), OperationRequestView> {
    if walk.reads < replies.readability@.len() {
        Ok(
            (
                replies.readability@[walk.reads as int],
                OperationWalk { reads: walk.reads + 1, ..walk },
            ),
        )
    } else {
        Err(OperationRequestView::SourceReadable { path, requirement })
    }
}

/// Asks whether the directory containing `path` exists.
pub open spec fn ask_target_directory(
    replies: OperationReplies,
    walk: OperationWalk,
    path: Seq<char>,
) -> Result<(bool, OperationWalk), OperationRequestView> {
    if walk.directories < replies.target_directories@.len() {
        Ok(
            (
                replies.target_directories@[walk.directories as int],
                OperationWalk { directories: walk.directories + 1, ..walk },
            ),
        )
    } else {
        Err(OperationRequestView::TargetDirectoryExists(path))
    }
}

/// The entry for a file action: the operation and its source readability.
pub open spec fn file_entry(
    replies: OperationReplies,
    walk: OperationWalk,
    source_root: Seq<char>,
    file: Seq<char>,
    as_name: Seq<char>,
    options: ResolvedOptions,
    home: Seq<char>,
) -> Result<(OperationEntryView, OperationWalk), OperationRequestView> {
    let action = planned_action(source_root, file, as_name, options, home);
    match ask_readable(replies, walk, operation_of(action).source, SourcePathRequirement::File) {
        Err(q) => Err(q),
        Ok((read, w)) => Ok(
            (
                OperationEntryView::Action(
                    PlannedOperationActionView {
                        action,
                        source_availability: availability_of(read),
                        skip_reason: None,
                    },
                ),
                w,
            ),
        ),
    }
}

/// The entries for the selected paths `selected[k..]`, appended to `acc`:
/// each with its source readability, and, in a recursive selection keeping
/// only existing target directories, skipped when its readable source
/// would land in a missing directory.
pub open spec fn selected_actions_from(
    replies: OperationReplies,
    walk: OperationWalk,
    source_root: Seq<char>,
    select: IntentSelectAction,
    selected: Seq<Seq<char>>,
    home: Seq<char>,
    k: int,
    acc: Seq<OperationEntryView>,
) -> Result<(Seq<OperationEntryView>, OperationWalk), OperationRequestView>
    decreases selected.len() - k,
{
    if k >= selected.len() || k < 0 {
        Ok((acc, walk))
    } else {
        let action = planned_action(
            source_root,
            selected[k],
            selected[k],
            select.options,
            home,
        );
        match ask_readable(replies, walk, operation_of(action).source, SourcePathRequirement::File) {
            Err(q) => Err(q),
            Ok((read, w)) => {
                let availability = availability_of(read);
                if select.recursive && select.existing_directories_only && availability
                    is Available {
                    match ask_target_directory(replies, w, operation_of(action).target) {
                        Err(q) => Err(q),
                        Ok((exists, w2)) => selected_actions_from(
                            replies,
                            w2,
                            source_root,
                            select,
                            selected,
                            home,
                            k + 1,
                            acc.push(
                                OperationEntryView::Action(
                                    PlannedOperationActionView {
                                        action,
                                        source_availability: availability,
                                        skip_reason: if exists {
                                            None
                                        } else {
                                            Some(OperationSkipReason::MissingTargetDirectory)
                                        },
                                    },
                                ),
                            ),
                        ),
                    }
                } else {
                    selected_actions_from(
                        replies,
                        w,
                        source_root,
                        select,
                        selected,
                        home,
                        k + 1,
                        acc.push(
                            OperationEntryView::Action(
                                PlannedOperationActionView {
                                    action,
                                    source_availability: availability,
                                    skip_reason: None,
                                },
                            ),
                        ),
                    )
                }
            },
        }
    }
}

/// The entries a selection expands to: an issue when its root cannot be
/// read as a directory or a listing fails, else one entry per chosen file.
pub open spec fn select_entries_of(
    replies: OperationReplies,
    walk: OperationWalk,
    source_root: Seq<char>,
    select: IntentSelectAction,
    global_excludes: Seq<Seq<char>>,
    home: Seq<char>,
) -> Result<(Seq<OperationEntryView>, OperationWalk), OperationRequestView> {
    match ask_readable(replies, walk, source_root, SourcePathRequirement::Directory) {
        Err(q) => Err(q),
        Ok((Err(e), w)) => Ok(
            (
                seq![
                    OperationEntryView::Issue(
                        OperationPlanningIssueView {
                            path: source_root,
                            source_availability: availability_of_error(e),
                        },
                    ),
                ],
                w,
            ),
        ),
        Ok((Ok(()), w)) => match list_entries(
            replies,
            source_root,
            if select.recursive {
                None
            } else {
                Some(0usize)
            },
            w.listings,
        ) {
            Err(q) => Err(q),
            Ok((Err(e), taken)) => Ok(
                (
                    seq![
                        OperationEntryView::Issue(
                            OperationPlanningIssueView {
                                path: e.path@,
                                source_availability: availability_of_error(e),
                            },
                        ),
                    ],
                    OperationWalk { listings: w.listings + taken, ..w },
                ),
            ),
            Ok((Ok(listed), taken)) => selected_actions_from(
                replies,
                OperationWalk { listings: w.listings + taken, ..w },
                source_root,
                select,
                selected_entries(
                    listed,
                    select.selection_type,
                    global_excludes + texts_view(select.exclude@),
                ),
                home,
                0,
                Seq::empty(),
            ),
        },
    }
}

/// The entries of the actions `source.actions[k..]` under `source_root`,
/// appended to `acc`.
pub open spec fn source_entries_from(
    replies: OperationReplies,
    walk: OperationWalk,
    source: IntentSource,
    source_root: Seq<char>,
    global_excludes: Seq<Seq<char>>,
    home: Seq<char>,
    k: int,
    acc: Seq<OperationEntryView>,
) -> Result<(Seq<OperationEntryView>, OperationWalk), OperationRequestView>
    decreases source.actions@.len() - k,
{
    if k >= source.actions@.len() || k < 0 {
        Ok((acc, walk))
    } else {
        match source.actions@[k] {
            IntentAction::File(f) => match file_entry(
                replies,
                walk,
                source_root,
                f.file@,
                f.as_name@,
                f.options,
                home,
            ) {
                Err(q) => Err(q),
                Ok((entry, w)) => source_entries_from(
                    replies,
                    w,
                    source,
                    source_root,
                    global_excludes,
                    home,
                    k + 1,
                    acc.push(entry),
                ),
            },
            IntentAction::Select(s) => match select_entries_of(
                replies,
                walk,
                source_root,
                s,
                global_excludes,
                home,
            ) {
                Err(q) => Err(q),
                Ok((entries, w)) => source_entries_from(
                    replies,
                    w,
                    source,
                    source_root,
                    global_excludes,
                    home,
                    k + 1,
                    acc + entries,
                ),
            },
        }
    }
}

/// The entries of the sources `plan.sources[k..]`, appended to `acc`.
pub open spec fn plan_entries_from(
    replies: OperationReplies,
    walk: OperationWalk,
    plan: IntentPlan,
    global_excludes: Seq<Seq<char>>,
    home: Seq<char>,
    k: int,
    acc: Seq<OperationEntryView>,
) -> Result<(Seq<OperationEntryView>, OperationWalk), OperationRequestView>
    decreases plan.sources@.len() - k,
{
    if k >= plan.sources@.len() || k < 0 {
        Ok((acc, walk))
    } else {
        let root = source_root(
            repository_root(plan.repository@, home),
            plan.sources@[k].from@,
            home,
        );
        match source_entries_from(
            replies,
            walk,
            plan.sources@[k],
            root,
            global_excludes,
            home,
            0,
            acc,
        ) {
            Err(q) => Err(q),
            Ok((entries, w)) => plan_entries_from(
                replies,
                w,
                plan,
                global_excludes,
                home,
                k + 1,
                entries,
            ),
        }
    }
}

/// Operation planning of `plan` against the answers in `replies`. Planning
/// itself never fails: unreadable sources are recorded in the plan.
pub open spec fn operation_planning(
    plan: IntentPlan,
    home: Seq<char>,
    global_excludes: Seq<Seq<char>>,
    replies: OperationReplies,
) -> OperationProgressView {
    match plan_entries_from(
        replies,
        OperationWalk { reads: 0, listings: 0, directories: 0 },
        plan,
        global_excludes,
        home,
        0,
        Seq::empty(),
    ) {
        Err(q) => OperationProgressView::Needs(q),
        Ok((entries, _)) => OperationProgressView::Finished(Ok(OperationPlanView { entries })),
    }
}

// ---------------------------------------------------------------------------
// The plan, executed
// ---------------------------------------------------------------------------

impl View for Cursor {
    type V = OperationWalk;

    closed spec fn view(&self) -> OperationWalk {
        OperationWalk {
            reads: self.reads as nat,
            listings: self.listings as nat,
            directories: self.directories as nat,
        }
    }
}

fn check_readable(
    replies: &OperationReplies,
    cursor: &mut Cursor,
    path: &String,
    requirement: SourcePathRequirement,
) -> (res: Result<Result<(), SourceReadError>, OperationRequest>)
    ensures
        match ask_readable(*replies, old(cursor)@, path@, requirement) {
            Err(q) => res matches Err(r) && r@ == q,
            Ok((read, w)) => res == Ok::<Result<(), SourceReadError>, OperationRequest>(read)
                && final(cursor)@ == w,
        },
        final(cursor).listings == old(cursor).listings,
{
    if cursor.reads < replies.readability.len() {
        let reply = &replies.readability[cursor.reads];
        let answer: Result<(), SourceReadError> = match reply {
            Ok(unit) => Ok(*unit),
            Err(e) => Err(e.clone()),
        };
        assert(answer == replies.readability@[cursor.reads as int]);
        cursor.reads = cursor.reads + 1;
        Ok(answer)
    } else {
        Err(OperationRequest::SourceReadable { path: path.clone(), requirement })
    }
}

fn check_target_directory(replies: &OperationReplies, cursor: &mut Cursor, path: &String) -> (res:
    Result<bool, OperationRequest>)
    ensures
        match ask_target_directory(*replies, old(cursor)@, path@) {
            Err(q) => res matches Err(r) && r@ == q,
            Ok((exists, w)) => res == Ok::<bool, OperationRequest>(exists) && final(cursor)@ == w,
        },
        final(cursor).listings == old(cursor).listings,
{
    if cursor.directories < replies.target_directories.len() {
        let answer = replies.target_directories[cursor.directories];
        cursor.directories = cursor.directories + 1;
        Ok(answer)
    } else {
        Err(OperationRequest::TargetDirectoryExists(path.clone()))
    }
}

fn expand_file_action(
    replies: &OperationReplies,
    cursor: &mut Cursor,
    source_root: &String,
    file: &String,
    as_name: &String,
    options: &ResolvedOptions,
    home_directory: &String,
) -> (res: Result<OperationEntry, OperationRequest>)
    ensures
        match file_entry(*replies, old(cursor)@, source_root@, file@, as_name@, *options, home_directory@) {
            Err(q) => res matches Err(r) && r@ == q,
            Ok((entry, w)) => res matches Ok(r) && r@ == entry && final(cursor)@ == w,
        },
        final(cursor).listings == old(cursor).listings,
{
    let action = operation_action(source_root, file, as_name, options, home_directory);
    let read = check_readable(replies, cursor, action.source(), SourcePathRequirement::File)?;
    Ok(
        OperationEntry::Action(
            PlannedOperationAction {
                source_availability: source_availability_from_result(&read),
                skip_reason: None,
                action,
            },
        ),
    )
}

fn expand_selected_entries(
    replies: &OperationReplies,
    cursor: &mut Cursor,
    source_root: &String,
    select: &IntentSelectAction,
    selected: &Vec<String>,
    home_directory: &String,
    planned: &mut Vec<OperationEntry>,
) -> (res: Result<(), OperationRequest>)
    ensures
        match selected_actions_from(
            *replies,
            old(cursor)@,
            source_root@,
            *select,
            texts_view(selected@),
            home_directory@,
            0,
            entries_view(old(planned)@),
        ) {
            Err(q) => res matches Err(r) && r@ == q,
            Ok((entries, w)) => res is Ok && entries_view(final(planned)@) == entries
                && final(cursor)@ == w,
        },
        final(cursor).listings == old(cursor).listings,
{
    let mut k: usize = 0;
    while k < selected.len()
        invariant
            k <= selected.len(),
            cursor.listings == old(cursor).listings,
            selected_actions_from(
                *replies,
                old(cursor)@,
                source_root@,
                *select,
                texts_view(selected@),
                home_directory@,
                0,
                entries_view(old(planned)@),
            ) == selected_actions_from(
                *replies,
                cursor@,
                source_root@,
                *select,
                texts_view(selected@),
                home_directory@,
                k as int,
                entries_view(planned@),
            ),
        decreases selected.len() - k,
    {
        let action = operation_action(
            source_root,
            &selected[k],
            &selected[k],
            &select.options,
            home_directory,
        );
        let read = check_readable(replies, cursor, action.source(), SourcePathRequirement::File)?;
        let source_availability = source_availability_from_result(&read);
        let skip_reason = if select.recursive && select.existing_directories_only
            && source_availability.is_available() {
            if check_target_directory(replies, cursor, action.target())? {
                None
            } else {
                Some(OperationSkipReason::MissingTargetDirectory)
            }
        } else {
            None
        };
        let entry = OperationEntry::Action(
            PlannedOperationAction { source_availability, skip_reason, action },
        );
        let ghost before = entries_view(planned@);
        planned.push(entry);
        assert(entries_view(planned@) =~= before.push(entry@));
        k += 1;
    }
    Ok(())
}

fn copy_exclude_patterns(global: &Vec<String>, local: &Vec<String>) -> (res: Vec<String>)
    ensures
        texts_view(res@) == texts_view(global@) + texts_view(local@),
{
    let mut res: Vec<String> = Vec::new();
    let mut i: usize = 0;
    while i < global.len()
        invariant
            i <= global.len(),
            res@ == global@.take(i as int),
        decreases global.len() - i,
    {
        res.push(global[i].clone());
        assert(global@.take(i as int + 1) == global@.take(i as int).push(global@[i as int]));
        i += 1;
    }
    assert(global@.take(global.len() as int) == global@);
    let mut j: usize = 0;
    while j < local.len()
        invariant
            j <= local.len(),
            res@ == global@ + local@.take(j as int),
        decreases local.len() - j,
    {
        res.push(local[j].clone());
        assert(local@.take(j as int + 1) == local@.take(j as int).push(local@[j as int]));
        assert(global@ + local@.take(j as int + 1) == (global@ + local@.take(j as int)).push(
            local@[j as int],
        ));
        j += 1;
    }
    assert(local@.take(local.len() as int) == local@);
    assert(texts_view(res@) =~= texts_view(global@) + texts_view(local@));
    res
}

fn expand_select_action(
    replies: &OperationReplies,
    cursor: &mut Cursor,
    source_root: &String,
    select: &IntentSelectAction,
    global_selection_excludes: &Vec<String>,
    home_directory: &String,
    planned: &mut Vec<OperationEntry>,
) -> (res: Result<(), OperationRequest>)
    requires
        old(cursor).listings <= replies.listings@.len(),
    ensures
        match select_entries_of(
            *replies,
            old(cursor)@,
            source_root@,
            *select,
            texts_view(global_selection_excludes@),
            home_directory@,
        ) {
            Err(q) => res matches Err(r) && r@ == q,
            Ok((entries, w)) => res is Ok && entries_view(final(planned)@) == entries_view(
                old(planned)@,
            ) + entries && final(cursor)@ == w,
        },
        final(cursor).listings <= replies.listings@.len(),
{
    let root_read = check_readable(
        replies,
        cursor,
        source_root,
        SourcePathRequirement::Directory,
    )?;
    if let Err(e) = &root_read {
        let entry = OperationEntry::Issue(
            OperationPlanningIssue {
                path: source_root.clone(),
                source_availability: source_availability_from_error(e),
            },
        );
        let ghost before = entries_view(planned@);
        planned.push(entry);
        assert(entries_view(planned@) =~= before + seq![entry@]);
        return Ok(());
    }
    let max_depth = if select.recursive {
        None
    } else {
        Some(0usize)
    };
    let mut listed: Vec<String> = Vec::new();
    let ghost start_listings = cursor.listings;
    proof {
        assert(texts_view(listed@) =~= Seq::<Seq<char>>::empty());
    }
    let empty_prefix = String::new();
    match collect_directory_entries(
        replies,
        cursor,
        source_root,
        &empty_prefix,
        max_depth,
        &mut listed,
    )? {
        Err(e) => {
            let entry = OperationEntry::Issue(
                OperationPlanningIssue {
                    path: e.path.clone(),
                    source_availability: source_availability_from_error(&e),
                },
            );
            let ghost before = entries_view(planned@);
            planned.push(entry);
            assert(entries_view(planned@) =~= before + seq![entry@]);
            return Ok(());
        },
        Ok(()) => {},
    }
    let excludes = copy_exclude_patterns(global_selection_excludes, &select.exclude);
    let selected = select_entries(&listed, select.selection_type, &excludes);
    let ghost before = entries_view(planned@);
    let mut fresh: Vec<OperationEntry> = Vec::new();
    proof {
        assert(entries_view(fresh@) =~= Seq::<OperationEntryView>::empty());
    }
    let result = expand_selected_entries(
        replies,
        cursor,
        source_root,
        select,
        &selected,
        home_directory,
        &mut fresh,
    );
    match result {
        Err(q) => Err(q),
        Ok(()) => {
            let ghost fresh_view = entries_view(fresh@);
            planned.append(&mut fresh);
            assert(entries_view(planned@) =~= before + fresh_view);
            Ok(())
        },
    }
}

fn expand_source(
    replies: &OperationReplies,
    cursor: &mut Cursor,
    source: &IntentSource,
    source_root: &String,
    global_selection_excludes: &Vec<String>,
    home_directory: &String,
    planned: &mut Vec<OperationEntry>,
) -> (res: Result<(), OperationRequest>)
    requires
        old(cursor).listings <= replies.listings@.len(),
    ensures
        match source_entries_from(
            *replies,
            old(cursor)@,
            *source,
            source_root@,
            texts_view(global_selection_excludes@),
            home_directory@,
            0,
            entries_view(old(planned)@),
        ) {
            Err(q) => res matches Err(r) && r@ == q,
            Ok((entries, w)) => res is Ok && entries_view(final(planned)@) == entries
                && final(cursor)@ == w,
        },
        final(cursor).listings <= replies.listings@.len(),
{
    let mut k: usize = 0;
    while k < source.actions.len()
        invariant
            k <= source.actions.len(),
            cursor.listings <= replies.listings@.len(),
            source_entries_from(
                *replies,
                old(cursor)@,
                *source,
                source_root@,
                texts_view(global_selection_excludes@),
                home_directory@,
                0,
                entries_view(old(planned)@),
            ) == source_entries_from(
                *replies,
                cursor@,
                *source,
                source_root@,
                texts_view(global_selection_excludes@),
                home_directory@,
                k as int,
                entries_view(planned@),
            ),
        decreases source.actions.len() - k,
    {
        match &source.actions[k] {
            IntentAction::File(f) => {
                let entry = expand_file_action(
                    replies,
                    cursor,
                    source_root,
                    &f.file,
                    &f.as_name,
                    &f.options,
                    home_directory,
                )?;
                let ghost before = entries_view(planned@);
                planned.push(entry);
                assert(entries_view(planned@) =~= before.push(entry@));
            },
            IntentAction::Select(s) => {
                expand_select_action(
                    replies,
                    cursor,
                    source_root,
                    s,
                    global_selection_excludes,
                    home_directory,
                    planned,
                )?;
            },
        }
        k += 1;
    }
    Ok(())
}

/// Operation planning of `intent_plan` against the answers gathered so far.
///
/// Returns [`OperationProgress::Needs`] with the next question while an
/// answer is missing from `replies`, and the plan once all answers it needs
/// are there.
pub fn derive_operation_plan(
    intent_plan: &IntentPlan,
    home_directory: &String,
    global_selection_excludes: &Vec<String>,
    replies: &OperationReplies,
) -> (res: OperationProgress)
    ensures
        res@ == operation_planning(
            *intent_plan,
            home_directory@,
            texts_view(global_selection_excludes@),
            *replies,
        ),
{
    let repository_root = expand_home_prefixed_or_literal_path(
        &intent_plan.repository,
        home_directory,
    );
    let mut cursor = Cursor { reads: 0, listings: 0, directories: 0 };
    let mut planned: Vec<OperationEntry> = Vec::new();
    proof {
        assert(entries_view(planned@) =~= Seq::<OperationEntryView>::empty());
    }
    let mut k: usize = 0;
    while k < intent_plan.sources.len()
        invariant
            k <= intent_plan.sources.len(),
            cursor.listings <= replies.listings@.len(),
            repository_root@ == crate::operation::repository_root(intent_plan.repository@, home_directory@),
            plan_entries_from(
                *replies,
                OperationWalk { reads: 0, listings: 0, directories: 0 },
                *intent_plan,
                texts_view(global_selection_excludes@),
                home_directory@,
                0,
                Seq::empty(),
            ) == plan_entries_from(
                *replies,
                cursor@,
                *intent_plan,
                texts_view(global_selection_excludes@),
                home_directory@,
                k as int,
                entries_view(planned@),
            ),
        decreases intent_plan.sources.len() - k,
    {
        let source = &intent_plan.sources[k];
        let source_root = resolve_source_root(&repository_root, &source.from, home_directory);
        match expand_source(
            replies,
            &mut cursor,
            source,
            &source_root,
            global_selection_excludes,
            home_directory,
            &mut planned,
        ) {
            Err(q) => return OperationProgress::Needs(q),
            Ok(()) => {},
        }
        k += 1;
    }
    OperationProgress::Finished(Ok(OperationPlan { entries: planned }))
}


// ---------------------------------------------------------------------------
// Planning depends on the intent plan's content only
// ---------------------------------------------------------------------------

proof fn lemma_selected_actions_by_view(
    replies: OperationReplies,
    walk: OperationWalk,
    source_root: Seq<char>,
    first: IntentSelectAction,
    second: IntentSelectAction,
    selected: Seq<Seq<char>>,
    home: Seq<char>,
    k: int,
    acc: Seq<OperationEntryView>,
)
    requires
        first.options@ == second.options@,
        first.recursive == second.recursive,
        first.existing_directories_only == second.existing_directories_only,
    ensures
        selected_actions_from(replies, walk, source_root, first, selected, home, k, acc)
            == selected_actions_from(replies, walk, source_root, second, selected, home, k, acc),
    decreases selected.len() - k,
{
    if k >= selected.len() || k < 0 {
    } else {
        let action = planned_action(source_root, selected[k], selected[k], first.options, home);
        assert(action == planned_action(source_root, selected[k], selected[k], second.options, home));
        match ask_readable(replies, walk, operation_of(action).source, SourcePathRequirement::File) {
            Err(q) => {},
            Ok((read, w)) => {
                let availability = availability_of(read);
                if first.recursive && first.existing_directories_only && availability is Available {
                    match ask_target_directory(replies, w, operation_of(action).target) {
                        Err(q) => {},
                        Ok((exists, w2)) => {
                            lemma_selected_actions_by_view(
                                replies,
                                w2,
                                source_root,
                                first,
                                second,
                                selected,
                                home,
                                k + 1,
                                acc.push(
                                    OperationEntryView::Action(
                                        PlannedOperationActionView {
                                            action,
                                            source_availability: availability,
                                            skip_reason: if exists {
                                                None
                                            } else {
                                                Some(OperationSkipReason::MissingTargetDirectory)
                                            },
                                        },
                                    ),
                                ),
                            );
                        },
                    }
                } else {
                    lemma_selected_actions_by_view(
                        replies,
                        w,
                        source_root,
                        first,
                        second,
                        selected,
                        home,
                        k + 1,
                        acc.push(
                            OperationEntryView::Action(
                                PlannedOperationActionView {
                                    action,
                                    source_availability: availability,
                                    skip_reason: None,
                                },
                            ),
                        ),
                    );
                }
            },
        }
    }
}

proof fn lemma_select_entries_by_view(
    replies: OperationReplies,
    walk: OperationWalk,
    source_root: Seq<char>,
    first: IntentSelectAction,
    second: IntentSelectAction,
    global_excludes: Seq<Seq<char>>,
    home: Seq<char>,
)
    requires
        IntentAction::Select(first)@ == IntentAction::Select(second)@,
    ensures
        select_entries_of(replies, walk, source_root, first, global_excludes, home)
            == select_entries_of(replies, walk, source_root, second, global_excludes, home),
{
    match ask_readable(replies, walk, source_root, SourcePathRequirement::Directory) {
        Ok((Ok(()), w)) => match list_entries(
            replies,
            source_root,
            if first.recursive {
                None
            } else {
                Some(0usize)
            },
            w.listings,
        ) {
            Ok((Ok(listed), taken)) => {
                lemma_selected_actions_by_view(
                    replies,
                    OperationWalk { listings: w.listings + taken, ..w },
                    source_root,
                    first,
                    second,
                    selected_entries(
                        listed,
                        first.selection_type,
                        global_excludes + texts_view(first.exclude@),
                    ),
                    home,
                    0,
                    Seq::empty(),
                );
            },
            _ => {},
        },
        _ => {},
    }
}

proof fn lemma_source_entries_by_view(
    replies: OperationReplies,
    walk: OperationWalk,
    first: IntentSource,
    second: IntentSource,
    source_root: Seq<char>,
    global_excludes: Seq<Seq<char>>,
    home: Seq<char>,
    k: int,
    acc: Seq<OperationEntryView>,
)
    requires
        first@ == second@,
    ensures
        source_entries_from(replies, walk, first, source_root, global_excludes, home, k, acc)
            == source_entries_from(replies, walk, second, source_root, global_excludes, home, k, acc),
    decreases first.actions@.len() - k,
{
    assert(first.actions@.len() == first@.actions.len());
    assert(second.actions@.len() == second@.actions.len());
    if k >= first.actions@.len() || k < 0 {
    } else {
        assert(first@.actions[k] == first.actions@[k]@);
        assert(second@.actions[k] == second.actions@[k]@);
        match (first.actions@[k], second.actions@[k]) {
            (IntentAction::File(f), IntentAction::File(g)) => {
                assert(f.options@ == g.options@);
                assert(planned_action(source_root, f.file@, f.as_name@, f.options, home)
                    == planned_action(source_root, g.file@, g.as_name@, g.options, home));
                match file_entry(replies, walk, source_root, f.file@, f.as_name@, f.options, home) {
                    Err(q) => {},
                    Ok((entry, w)) => {
                        lemma_source_entries_by_view(
                            replies,
                            w,
                            first,
                            second,
                            source_root,
                            global_excludes,
                            home,
                            k + 1,
                            acc.push(entry),
                        );
                    },
                }
            },
            (IntentAction::Select(f), IntentAction::Select(g)) => {
                lemma_select_entries_by_view(replies, walk, source_root, f, g, global_excludes, home);
                match select_entries_of(replies, walk, source_root, f, global_excludes, home) {
                    Err(q) => {},
                    Ok((entries, w)) => {
                        lemma_source_entries_by_view(
                            replies,
                            w,
                            first,
                            second,
                            source_root,
                            global_excludes,
                            home,
                            k + 1,
                            acc + entries,
                        );
                    },
                }
            },
            _ => {},
        }
    }
}

proof fn lemma_plan_entries_by_view(
    replies: OperationReplies,
    walk: OperationWalk,
    first: IntentPlan,
    second: IntentPlan,
    global_excludes: Seq<Seq<char>>,
    home: Seq<char>,
    k: int,
    acc: Seq<OperationEntryView>,
)
    requires
        first@ == second@,
    ensures
        plan_entries_from(replies, walk, first, global_excludes, home, k, acc)
            == plan_entries_from(replies, walk, second, global_excludes, home, k, acc),
    decreases first.sources@.len() - k,
{
    assert(first.sources@.len() == first@.sources.len());
    assert(second.sources@.len() == second@.sources.len());
    if k >= first.sources@.len() || k < 0 {
    } else {
        assert(first@.sources[k] == first.sources@[k]@);
        assert(second@.sources[k] == second.sources@[k]@);
        let root = source_root(
            repository_root(first.repository@, home),
            first.sources@[k].from@,
            home,
        );
        lemma_source_entries_by_view(
            replies,
            walk,
            first.sources@[k],
            second.sources@[k],
            root,
            global_excludes,
            home,
            0,
            acc,
        );
        match source_entries_from(
            replies,
            walk,
            first.sources@[k],
            root,
            global_excludes,
            home,
            0,
            acc,
        ) {
            Err(q) => {},
            Ok((entries, w)) => {
                lemma_plan_entries_by_view(
                    replies,
                    w,
                    first,
                    second,
                    global_excludes,
                    home,
                    k + 1,
                    entries,
                );
            },
        }
    }
}

/// Operation planning reads the intent plan only through its content: two
/// intent plans with the same view are planned alike.
pub proof fn lemma_operation_planning_by_view(
    first: IntentPlan,
    second: IntentPlan,
    home: Seq<char>,
    global_excludes: Seq<Seq<char>>,
    replies: OperationReplies,
)
    requires
        first@ == second@,
    ensures
        operation_planning(first, home, global_excludes, replies) == operation_planning(
            second,
            home,
            global_excludes,
            replies,
        ),
{
    lemma_plan_entries_by_view(
        replies,
        OperationWalk { reads: 0, listings: 0, directories: 0 },
        first,
        second,
        global_excludes,
        home,
        0,
        Seq::empty(),
    );
}


// ---------------------------------------------------------------------------
// Laws of directory listing
// ---------------------------------------------------------------------------

/// No entry's name orders before the name of an entry ahead of it.
pub open spec fn ordered_by_name(entries: Seq<DirectoryEntry>) -> bool {
    forall|i: int, j: int|
        0 <= i < j < entries.len() ==> !text_less(#[trigger] entries[j].name@, #[trigger] entries[i].name@, false)
}

proof fn lemma_insert_by_name(sorted: Seq<DirectoryEntry>, entry: DirectoryEntry)
    requires
        ordered_by_name(sorted),
    ensures
        ordered_by_name(insert_by_name(sorted, entry)),
        insert_by_name(sorted, entry).to_multiset() == sorted.to_multiset().insert(entry),
    decreases sorted.len(),
{
    broadcast use vstd::multiset::group_multiset_axioms;
    broadcast use vstd::seq_lib::group_to_multiset_ensures;

    let result = insert_by_name(sorted, entry);
    if sorted.len() == 0 {
        assert(result =~= Seq::<DirectoryEntry>::empty().push(entry));
        assert(sorted =~= Seq::<DirectoryEntry>::empty());
    } else if text_less(entry.name@, sorted[0].name@, false) {
        assert(result =~= seq![entry] + sorted);
        vstd::seq_lib::lemma_multiset_commutative(seq![entry], sorted);
        assert(seq![entry] =~= Seq::<DirectoryEntry>::empty().push(entry));
        assert(result.to_multiset() =~= sorted.to_multiset().insert(entry));
        assert forall|i: int, j: int| 0 <= i < j < result.len() implies !text_less(
            #[trigger] result[j].name@,
            #[trigger] result[i].name@,
            false,
        ) by {
            if i == 0 {
                assert(result[j] == sorted[j - 1]);
                if text_less(sorted[j - 1].name@, entry.name@, false) {
                    lemma_text_less_transitive(sorted[j - 1].name@, entry.name@, sorted[0].name@, false);
                    if j - 1 == 0 {
                        lemma_text_less_irreflexive(sorted[0].name@, false);
                    }
                }
            } else {
                assert(result[i] == sorted[i - 1]);
                assert(result[j] == sorted[j - 1]);
            }
        }
    } else {
        let rest = sorted.drop_first();
        assert(ordered_by_name(rest)) by {
            assert forall|i: int, j: int| 0 <= i < j < rest.len() implies !text_less(
                #[trigger] rest[j].name@,
                #[trigger] rest[i].name@,
                false,
            ) by {
                assert(rest[i] == sorted[i + 1]);
                assert(rest[j] == sorted[j + 1]);
            }
        }
        lemma_insert_by_name(rest, entry);
        let tail = insert_by_name(rest, entry);
        assert(result =~= seq![sorted[0]] + tail);
        vstd::seq_lib::lemma_multiset_commutative(seq![sorted[0]], tail);
        vstd::seq_lib::lemma_multiset_commutative(seq![sorted[0]], rest);
        assert(sorted =~= seq![sorted[0]] + rest);
        assert(result.to_multiset() =~= sorted.to_multiset().insert(entry));
        assert forall|i: int, j: int| 0 <= i < j < result.len() implies !text_less(
            #[trigger] result[j].name@,
            #[trigger] result[i].name@,
            false,
        ) by {
            if i == 0 {
                let x = tail[j - 1];
                assert(result[j] == x);
                assert(tail.contains(x));
                assert(tail.to_multiset().count(x) > 0);
                if x != entry {
                    assert(rest.to_multiset().count(x) > 0);
                    assert(rest.contains(x));
                    let k = choose|k: int| 0 <= k < rest.len() && rest[k] == x;
                    assert(sorted[k + 1] == x);
                }
            } else {
                assert(result[i] == tail[i - 1]);
                assert(result[j] == tail[j - 1]);
            }
        }
    }
}

/// A directory's children are visited in name order: sorting by name keeps
/// every child, each as often as it was listed, and orders them by name.
pub proof fn lemma_sort_by_name(entries: Seq<DirectoryEntry>)
    ensures
        ordered_by_name(sort_by_name(entries)),
        sort_by_name(entries).to_multiset() == entries.to_multiset(),
    decreases entries.len(),
{
    broadcast use vstd::seq_lib::group_to_multiset_ensures;

    if entries.len() > 0 {
        lemma_sort_by_name(entries.drop_last());
        lemma_insert_by_name(sort_by_name(entries.drop_last()), entries.last());
        assert(entries.drop_last().push(entries.last()) =~= entries);
    } else {
        assert(sort_by_name(entries).to_multiset() =~= entries.to_multiset()) by {
            broadcast use vstd::multiset::group_multiset_axioms;
            assert(entries =~= Seq::<DirectoryEntry>::empty());
        }
    }
}

/// Selection keeps, in order, exactly the entries whose name fits the
/// selection type and that no exclude pattern matches.
pub proof fn lemma_selected_entries(
    entries: Seq<Seq<char>>,
    selection_type: SelectionType,
    excludes: Seq<Seq<char>>,
)
    ensures
        selected_entries(entries, selection_type, excludes) == entries.filter(
            |entry: Seq<char>| entry_selected(entry, selection_type, excludes),
        ),
    decreases entries.len(),
{
    reveal(Seq::filter);
    if entries.len() > 0 {
        lemma_selected_entries(entries.drop_last(), selection_type, excludes);
    }
}


// ---------------------------------------------------------------------------
// Log events of operation planning
// ---------------------------------------------------------------------------

/// The events operation planning reports once it is over: its start, with
/// the repository and the number of intent sources, and on success the
/// number of planned entries.
pub open spec fn operation_log(intent: crate::intent::IntentPlanView, outcome: OperationProgressView) -> Seq<LogEventView> {
    let start = event_of(
        RecordLevel::Debug,
        "gitenv::operation"@,
        "operation_plan_start"@,
        "repository="@ + intent.repository + " sources="@ + decimal(intent.sources.len()),
    );
    match outcome {
        OperationProgressView::Needs(_) => Seq::empty(),
        OperationProgressView::Finished(Err(_)) => seq![start],
        OperationProgressView::Finished(Ok(plan)) => seq![
            start,
            event_of(
                RecordLevel::Info,
                "gitenv::operation"@,
                "operation_plan_success"@,
                "entries="@ + decimal(plan.entries.len()),
            ),
        ],
    }
}

/// The events of operation planning of `intent_plan` that ended in
/// `outcome` (see [`operation_log`]).
pub fn operation_events(intent_plan: &IntentPlan, outcome: &OperationProgress) -> (res: Vec<LogEvent>)
    ensures
        events_view(res@) == operation_log(intent_plan@, outcome@),
{
    let mut events: Vec<LogEvent> = Vec::new();
    if let OperationProgress::Needs(_) = outcome {
        assert(events_view(events@) =~= Seq::<LogEventView>::empty());
        return events;
    }
    let mut details = String::from_str("repository=");
    details.append(intent_plan.repository.as_str());
    details.append(labelled_count(" sources=", intent_plan.sources.len()).as_str());
    assert(details@ =~= "repository="@ + intent_plan@.repository + " sources="@ + decimal(
        intent_plan@.sources.len(),
    ));
    let start = make_event(RecordLevel::Debug, "gitenv::operation", "operation_plan_start", details);
    let ghost start_view = start@;
    events.push(start);
    match outcome {
        OperationProgress::Finished(Ok(plan)) => {
            let success = make_event(
                RecordLevel::Info,
                "gitenv::operation",
                "operation_plan_success",
                labelled_count("entries=", plan.entries.len()),
            );
            let ghost success_view = success@;
            events.push(success);
            assert(events_view(events@) =~= seq![start_view, success_view]);
        },
        _ => {
            assert(events_view(events@) =~= seq![start_view]);
        },
    }
    events
}


// ---------------------------------------------------------------------------
// Laws of selection expansion
// ---------------------------------------------------------------------------

/// A selection whose root cannot be read as a directory expands to a
/// single planning issue at the root, with the availability the failure
/// stands for.
pub proof fn lemma_unreadable_selection_root(
    replies: OperationReplies,
    walk: OperationWalk,
    source_root: Seq<char>,
    select: IntentSelectAction,
    global_excludes: Seq<Seq<char>>,
    home: Seq<char>,
)
    requires
        ask_readable(replies, walk, source_root, SourcePathRequirement::Directory) matches Ok((Err(_), _)),
    ensures
        select_entries_of(replies, walk, source_root, select, global_excludes, home) matches Ok((entries, _))
            && entries == seq![
            OperationEntryView::Issue(
                OperationPlanningIssueView {
                    path: source_root,
                    source_availability: availability_of_error(
                        ask_readable(replies, walk, source_root, SourcePathRequirement::Directory)->Ok_0.0->Err_0,
                    ),
                },
            ),
        ],
{
}

/// A selection whose listing fails, at its root or at a nested directory,
/// expands to a single planning issue at the failing path, and to no
/// action at all: `Missing` for a missing directory, `Unreadable` with the
/// kind and message otherwise.
pub proof fn lemma_failed_listing(
    replies: OperationReplies,
    walk: OperationWalk,
    source_root: Seq<char>,
    select: IntentSelectAction,
    global_excludes: Seq<Seq<char>>,
    home: Seq<char>,
)
    requires
        ask_readable(replies, walk, source_root, SourcePathRequirement::Directory) matches Ok((Ok(()), w))
            && list_entries(
            replies,
            source_root,
            if select.recursive {
                None
            } else {
                Some(0usize)
            },
            w.listings,
        ) matches Ok((Err(_), _)),
    ensures
        ({
            let w = ask_readable(replies, walk, source_root, SourcePathRequirement::Directory)->Ok_0.1;
            let e = list_entries(
                replies,
                source_root,
                if select.recursive {
                    None
                } else {
                    Some(0usize)
                },
                w.listings,
            )->Ok_0.0->Err_0;
            select_entries_of(replies, walk, source_root, select, global_excludes, home) matches Ok((entries, _))
                && entries == seq![
                OperationEntryView::Issue(
                    OperationPlanningIssueView { path: e.path@, source_availability: availability_of_error(e) },
                ),
            ] && availability_of_error(e) == match e.kind {
                SourceReadErrorKind::Missing => SourceAvailabilityView::Missing,
                SourceReadErrorKind::PermissionDenied => SourceAvailabilityView::Unreadable {
                    kind: SourceUnreadableKind::PermissionDenied,
                    message: e.message@,
                },
                SourceReadErrorKind::UnexpectedIo => SourceAvailabilityView::Unreadable {
                    kind: SourceUnreadableKind::UnexpectedIo,
                    message: e.message@,
                },
            }
        }),
{
}

/// One selected path at a time: its entry carries the availability its
/// readability answer gives, and is skipped for a missing target directory
/// exactly when the selection is recursive and keeps to existing target
/// directories, the source is available, and the probe of the target's
/// directory finds none; planning then goes on with the next path.
pub proof fn lemma_selected_action_step(
    replies: OperationReplies,
    walk: OperationWalk,
    source_root: Seq<char>,
    select: IntentSelectAction,
    selected: Seq<Seq<char>>,
    home: Seq<char>,
    k: int,
    acc: Seq<OperationEntryView>,
)
    requires
        0 <= k < selected.len(),
        walk.reads < replies.readability@.len(),
        select.recursive && select.existing_directories_only && availability_of(
            replies.readability@[walk.reads as int],
        ) is Available ==> walk.directories < replies.target_directories@.len(),
    ensures
        ({
            let action = planned_action(source_root, selected[k], selected[k], select.options, home);
            let availability = availability_of(replies.readability@[walk.reads as int]);
            let probed = select.recursive && select.existing_directories_only && availability is Available;
            let entry = OperationEntryView::Action(
                PlannedOperationActionView {
                    action,
                    source_availability: availability,
                    skip_reason: if probed && !replies.target_directories@[walk.directories as int] {
                        Some(OperationSkipReason::MissingTargetDirectory)
                    } else {
                        None
                    },
                },
            );
            let next = OperationWalk {
                reads: walk.reads + 1,
                directories: if probed {
                    walk.directories + 1
                } else {
                    walk.directories
                },
                ..walk
            };
            selected_actions_from(replies, walk, source_root, select, selected, home, k, acc)
                == selected_actions_from(replies, next, source_root, select, selected, home, k + 1, acc.push(entry))
        }),
{
}

/// The selected paths expand to one action each, in order: the action the
/// options give for the path, skipped only in a recursive selection that
/// keeps to existing target directories, and then only when its source is
/// available.
pub proof fn lemma_selected_actions(
    replies: OperationReplies,
    walk: OperationWalk,
    source_root: Seq<char>,
    select: IntentSelectAction,
    selected: Seq<Seq<char>>,
    home: Seq<char>,
    k: int,
    acc: Seq<OperationEntryView>,
)
    requires
        0 <= k <= selected.len(),
    ensures
        selected_actions_from(replies, walk, source_root, select, selected, home, k, acc) matches Ok((entries, _))
            ==> entries.len() == acc.len() + selected.len() - k && entries.take(acc.len() as int) == acc
            && forall|i: int|
            acc.len() <= i < entries.len() ==> (#[trigger] entries[i] matches OperationEntryView::Action(a) && a.action
                == planned_action(
                source_root,
                selected[i - acc.len() + k],
                selected[i - acc.len() + k],
                select.options,
                home,
            ) && (a.skip_reason is Some ==> select.recursive && select.existing_directories_only
                && a.source_availability is Available)),
    decreases selected.len() - k,
{
    if k < selected.len() {
        let action = planned_action(source_root, selected[k], selected[k], select.options, home);
        match ask_readable(replies, walk, operation_of(action).source, SourcePathRequirement::File) {
            Err(q) => {},
            Ok((read, w)) => {
                let availability = availability_of(read);
                if select.recursive && select.existing_directories_only && availability is Available {
                    match ask_target_directory(replies, w, operation_of(action).target) {
                        Err(q) => {},
                        Ok((exists, w2)) => {
                            let entry = OperationEntryView::Action(
                                PlannedOperationActionView {
                                    action,
                                    source_availability: availability,
                                    skip_reason: if exists {
                                        None
                                    } else {
                                        Some(OperationSkipReason::MissingTargetDirectory)
                                    },
                                },
                            );
                            lemma_selected_actions(replies, w2, source_root, select, selected, home, k + 1, acc.push(entry));
                            lemma_push_prefix(acc, entry, selected_actions_from(replies, w2, source_root, select, selected, home, k + 1, acc.push(entry)));
                        },
                    }
                } else {
                    let entry = OperationEntryView::Action(
                        PlannedOperationActionView { action, source_availability: availability, skip_reason: None },
                    );
                    lemma_selected_actions(replies, w, source_root, select, selected, home, k + 1, acc.push(entry));
                    lemma_push_prefix(acc, entry, selected_actions_from(replies, w, source_root, select, selected, home, k + 1, acc.push(entry)));
                }
            },
        }
    }
}

proof fn lemma_push_prefix(
    acc: Seq<OperationEntryView>,
    entry: OperationEntryView,
    result: Result<(Seq<OperationEntryView>, OperationWalk), OperationRequestView>,
)
    requires
        result matches Ok((entries, _)) ==> entries.len() >= acc.len() + 1 && entries.take(acc.len() + 1int) == acc.push(entry),
    ensures
        result matches Ok((entries, _)) ==> entries.take(acc.len() as int) == acc && entries[acc.len() as int] == entry,
{
    if let Ok((entries, _)) = result {
        assert(entries.take(acc.len() as int) =~= entries.take(acc.len() + 1int).take(acc.len() as int));
        assert(entries[acc.len() as int] == entries.take(acc.len() + 1int)[acc.len() as int]);
    }
}

// ---------------------------------------------------------------------------
// Laws of selection by name and by exclude patterns
// ---------------------------------------------------------------------------

proof fn lemma_last_separator_of_joined(prefix: Seq<char>, name: Seq<char>, end: int)
    requires
        forall|k: int| 0 <= k < name.len() ==> #[trigger] name[k] != '/',
        prefix.len() + 1 <= end <= prefix.len() + 1 + name.len(),
    ensures
        last_separator_before(prefix + seq!['/'] + name, end) == Some(prefix.len() as int),
    decreases end,
{
    let e = prefix + seq!['/'] + name;
    if end > prefix.len() + 1 {
        assert(e[end - 1] == name[end - 1 - prefix.len() - 1]);
        lemma_last_separator_of_joined(prefix, name, end - 1);
    } else {
        assert(e[end - 1] == '/');
    }
}

proof fn lemma_last_separator_of_name(name: Seq<char>, end: int)
    requires
        forall|k: int| 0 <= k < name.len() ==> #[trigger] name[k] != '/',
        0 <= end <= name.len(),
    ensures
        last_separator_before(name, end) is None,
    decreases end,
{
    if end > 0 {
        lemma_last_separator_of_name(name, end - 1);
    }
}

/// The name of an entry is its last component: what follows the last `/`,
/// or the whole entry when it has none.
pub proof fn lemma_entry_name_is_last_component(prefix: Seq<char>, name: Seq<char>)
    requires
        forall|k: int| 0 <= k < name.len() ==> #[trigger] name[k] != '/',
    ensures
        entry_name(prefix + seq!['/'] + name) == name,
        entry_name(name) == name,
{
    let e = prefix + seq!['/'] + name;
    lemma_last_separator_of_joined(prefix, name, e.len() as int);
    assert(e.skip(prefix.len() + 1int) =~= name);
    lemma_last_separator_of_name(name, name.len() as int);
}

/// The selection type looks at an entry's last component alone: under any
/// directories, a dot selection takes exactly the names that start with
/// `.`, a non-dot selection exactly the others, and an all selection every
/// name (so `zsh/.zshrc` is a dotfile and `.config/foo` is not).
pub proof fn lemma_selection_type_reads_the_name(prefix: Seq<char>, name: Seq<char>)
    requires
        forall|k: int| 0 <= k < name.len() ==> #[trigger] name[k] != '/',
    ensures
        entry_selected(prefix + seq!['/'] + name, SelectionType::Dot, Seq::empty()) == (name.len() > 0
            && name[0] == '.'),
        entry_selected(prefix + seq!['/'] + name, SelectionType::NonDot, Seq::empty()) == !(name.len()
            > 0 && name[0] == '.'),
        entry_selected(prefix + seq!['/'] + name, SelectionType::All, Seq::empty()),
        entry_selected(name, SelectionType::Dot, Seq::empty()) == (name.len() > 0 && name[0] == '.'),
        entry_selected(name, SelectionType::NonDot, Seq::empty()) == !(name.len() > 0 && name[0]
            == '.'),
        entry_selected(name, SelectionType::All, Seq::empty()),
{
    lemma_entry_name_is_last_component(prefix, name);
}

/// Exclude patterns apply together: an entry is chosen under the patterns
/// `first` followed by `second` exactly when its name fits the selection
/// type and no pattern of either list matches its whole source-relative
/// path.
pub proof fn lemma_excludes_apply_together(
    entry: Seq<char>,
    selection_type: SelectionType,
    first: Seq<Seq<char>>,
    second: Seq<Seq<char>>,
)
    ensures
        entry_selected(entry, selection_type, first + second) == (entry_selected(
            entry,
            selection_type,
            Seq::empty(),
        ) && (forall|k: int| 0 <= k < first.len() ==> !glob_matches(#[trigger] first[k], entry))
            && (forall|k: int| 0 <= k < second.len() ==> !glob_matches(#[trigger] second[k], entry))),
{
    let all = first + second;
    if exists|k: int| 0 <= k < all.len() && glob_matches(#[trigger] all[k], entry) {
        let k = choose|k: int| 0 <= k < all.len() && glob_matches(#[trigger] all[k], entry);
        if k < first.len() {
            assert(all[k] == first[k]);
        } else {
            assert(all[k] == second[k - first.len()]);
        }
    }
    if exists|k: int| 0 <= k < first.len() && glob_matches(#[trigger] first[k], entry) {
        let k = choose|k: int| 0 <= k < first.len() && glob_matches(#[trigger] first[k], entry);
        assert(all[k] == first[k]);
    }
    if exists|k: int| 0 <= k < second.len() && glob_matches(#[trigger] second[k], entry) {
        let k = choose|k: int| 0 <= k < second.len() && glob_matches(#[trigger] second[k], entry);
        assert(all[k + first.len()] == second[k]);
    }
}

/// A selection whose root reads as a directory and whose listing succeeds
/// expands to one action per listed entry that fits the selection type and
/// that neither a global exclude nor one of the item's own excludes
/// matches, in listing order: a global exclude leaves its entries out
/// whatever the item's own excludes are, and so does an item exclude.
pub proof fn lemma_selection_applies_global_and_item_excludes(
    replies: OperationReplies,
    walk: OperationWalk,
    source_root: Seq<char>,
    select: IntentSelectAction,
    global_excludes: Seq<Seq<char>>,
    home: Seq<char>,
)
    requires
        ask_readable(replies, walk, source_root, SourcePathRequirement::Directory) matches Ok((Ok(()), w))
            && list_entries(
            replies,
            source_root,
            if select.recursive {
                None
            } else {
                Some(0usize)
            },
            w.listings,
        ) matches Ok((Ok(_), _)),
    ensures
        ({
            let w = ask_readable(replies, walk, source_root, SourcePathRequirement::Directory)->Ok_0.1;
            let listed = list_entries(
                replies,
                source_root,
                if select.recursive {
                    None
                } else {
                    Some(0usize)
                },
                w.listings,
            )->Ok_0.0->Ok_0;
            let item_excludes = texts_view(select.exclude@);
            let chosen = listed.filter(
                |entry: Seq<char>|
                    entry_selected(entry, select.selection_type, Seq::empty()) && (forall|k: int|
                        0 <= k < global_excludes.len() ==> !glob_matches(
                            #[trigger] global_excludes[k],
                            entry,
                        )) && (forall|k: int|
                        0 <= k < item_excludes.len() ==> !glob_matches(
                            #[trigger] item_excludes[k],
                            entry,
                        )),
            );
            select_entries_of(replies, walk, source_root, select, global_excludes, home) matches Ok(
                (entries, _),
            ) ==> entries.len() == chosen.len() && forall|i: int|
                0 <= i < entries.len() ==> (#[trigger] entries[i] matches OperationEntryView::Action(a)
                    && a.action == planned_action(
                    source_root,
                    chosen[i],
                    chosen[i],
                    select.options,
                    home,
                ))
        }),
{
    let w = ask_readable(replies, walk, source_root, SourcePathRequirement::Directory)->Ok_0.1;
    let max_depth = if select.recursive {
        None
    } else {
        Some(0usize)
    };
    let (listing, taken) = list_entries(replies, source_root, max_depth, w.listings)->Ok_0;
    let listed = listing->Ok_0;
    let item_excludes = texts_view(select.exclude@);
    let all = global_excludes + item_excludes;
    let by_all = |entry: Seq<char>| entry_selected(entry, select.selection_type, all);
    let by_parts = |entry: Seq<char>|
        entry_selected(entry, select.selection_type, Seq::empty()) && (forall|k: int|
            0 <= k < global_excludes.len() ==> !glob_matches(#[trigger] global_excludes[k], entry))
            && (forall|k: int|
            0 <= k < item_excludes.len() ==> !glob_matches(#[trigger] item_excludes[k], entry));
    assert forall|entry: Seq<char>| #[trigger] by_all(entry) == by_parts(entry) by {
        lemma_excludes_apply_together(entry, select.selection_type, global_excludes, item_excludes);
    }
    assert(by_all =~= by_parts);
    lemma_selected_entries(listed, select.selection_type, all);
    let chosen = selected_entries(listed, select.selection_type, all);
    assert(chosen == listed.filter(by_parts));
    lemma_selected_actions(
        replies,
        OperationWalk { listings: w.listings + taken, ..w },
        source_root,
        select,
        chosen,
        home,
        0,
        Seq::empty(),
    );
}

} // verus!
