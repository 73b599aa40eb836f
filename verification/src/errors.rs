//! Error and source-availability types shared by every stage.

use vstd::prelude::*;

use crate::text::{join_texts, seq_join, texts_view};

verus! {

/// Why a source path that exists could not be read.
#[derive(Debug, Clone, Copy, PartialEq, Eq, Structural)]
pub enum SourceUnreadableKind {
    PermissionDenied,
    UnexpectedIo,
}

/// Whether a planned source path can be used.
#[derive(Debug, PartialEq, Eq)]
pub enum SourceAvailability {
    Available,
    Missing,
    Unreadable { kind: SourceUnreadableKind, message: String },
}

/// Model of [`SourceAvailability`].
pub enum SourceAvailabilityView {
    Available,
    Missing,
    Unreadable { kind: SourceUnreadableKind, message: Seq<char> },
}

impl View for SourceAvailability {
    type V = SourceAvailabilityView;

    open spec fn view(&self) -> SourceAvailabilityView {
        match self {
            SourceAvailability::Available => SourceAvailabilityView::Available,
            SourceAvailability::Missing => SourceAvailabilityView::Missing,
            SourceAvailability::Unreadable { kind, message } => SourceAvailabilityView::Unreadable {
                kind: *kind,
                message: message@,
            },
        }
    }
}

impl Clone for SourceAvailability {
    fn clone(&self) -> (res: Self)
        ensures
            res@ == self@,
    {
        match self {
            SourceAvailability::Available => SourceAvailability::Available,
            SourceAvailability::Missing => SourceAvailability::Missing,
            SourceAvailability::Unreadable { kind, message } => SourceAvailability::Unreadable {
                kind: *kind,
                message: message.clone(),
            },
        }
    }
}

impl SourceAvailability {
    /// Whether this is [`SourceAvailability::Available`].
    pub fn is_available(&self) -> (res: bool)
        ensures
            res == (self@ is Available),
    {
        match self {
            SourceAvailability::Available => true,
            _ => false,
        }
    }
}

/// Every failure the program reports. Paths are carried as text.
#[derive(Debug, PartialEq, Eq)]
pub enum ProgramError {
    /// Parsed configuration content is structurally invalid.
    InvalidConfiguration { message: String },
    /// A configuration file could not be read from disk.
    ConfigurationReadFailed { path: String, message: String },
    /// Required environment variables for planning are not set.
    MissingEnvironment { vars: Vec<String> },
    /// One or more required include files could not be found. The paths are
    /// sorted for deterministic output.
    IncludeNotFound { paths: Vec<String> },
    /// A config file was encountered more than once in the same include chain,
    /// forming a cycle. Contains the full cycle path in traversal order,
    /// ending with the repeated path that closes the cycle.
    IncludeCycle { cycle: Vec<String> },
    /// A source directory could not be read while expanding selectors.
    SourceDirectoryReadFailed { path: String, message: String },
    /// A filesystem path could not be inspected while deriving status or apply
    /// preconditions.
    PathInspectionFailed { path: String, message: String },
    /// A symlink target could not be read while deriving status.
    SymlinkTargetReadFailed { path: String, message: String },
    /// A symlink could not be created while applying operations.
    SymlinkCreationFailed { source: String, target: String, message: String },
    /// A file copy operation could not be completed while applying operations.
    FileCopyFailed { source: String, target: String, message: String },
    /// The target's parent directory could not be created before apply.
    TargetDirectoryCreationFailed { path: String, message: String },
    /// An existing target could not be removed before overwrite.
    TargetRemovalFailed { path: String, message: String },
    /// An existing target could not be moved to its backup path.
    TargetBackupFailed { path: String, backup_path: String, message: String },
    /// Backup-on-overwrite cannot proceed because the backup path exists.
    BackupAlreadyExists { path: String },
    /// The current home directory is required to resolve home-relative paths.
    HomeDirectoryUnavailable,
    /// Apply cannot proceed because one or more planned sources are unavailable.
    OperationPlanBlocked { diagnostics: Vec<String> },
}

/// Model of [`ProgramError`].
pub enum ProgramErrorView {
    InvalidConfiguration { message: Seq<char> },
    ConfigurationReadFailed { path: Seq<char>, message: Seq<char> },
    MissingEnvironment { vars: Seq<Seq<char>> },
    IncludeNotFound { paths: Seq<Seq<char>> },
    IncludeCycle { cycle: Seq<Seq<char>> },
    SourceDirectoryReadFailed { path: Seq<char>, message: Seq<char> },
    PathInspectionFailed { path: Seq<char>, message: Seq<char> },
    SymlinkTargetReadFailed { path: Seq<char>, message: Seq<char> },
    SymlinkCreationFailed { source: Seq<char>, target: Seq<char>, message: Seq<char> },
    FileCopyFailed { source: Seq<char>, target: Seq<char>, message: Seq<char> },
    TargetDirectoryCreationFailed { path: Seq<char>, message: Seq<char> },
    TargetRemovalFailed { path: Seq<char>, message: Seq<char> },
    TargetBackupFailed { path: Seq<char>, backup_path: Seq<char>, message: Seq<char> },
    BackupAlreadyExists { path: Seq<char> },
    HomeDirectoryUnavailable,
    OperationPlanBlocked { diagnostics: Seq<Seq<char>> },
}

impl View for ProgramError {
    type V = ProgramErrorView;

    open spec fn view(&self) -> ProgramErrorView {
        match self {
            ProgramError::InvalidConfiguration { message } => ProgramErrorView::InvalidConfiguration {
                message: message@,
            },
            ProgramError::ConfigurationReadFailed { path, message } =>
                ProgramErrorView::ConfigurationReadFailed { path: path@, message: message@ },
            ProgramError::MissingEnvironment { vars } => ProgramErrorView::MissingEnvironment {
                vars: texts_view(vars@),
            },
            ProgramError::IncludeNotFound { paths } => ProgramErrorView::IncludeNotFound {
                paths: texts_view(paths@),
            },
            ProgramError::IncludeCycle { cycle } => ProgramErrorView::IncludeCycle {
                cycle: texts_view(cycle@),
            },
            ProgramError::SourceDirectoryReadFailed { path, message } =>
                ProgramErrorView::SourceDirectoryReadFailed { path: path@, message: message@ },
            ProgramError::PathInspectionFailed { path, message } =>
                ProgramErrorView::PathInspectionFailed { path: path@, message: message@ },
            ProgramError::SymlinkTargetReadFailed { path, message } =>
                ProgramErrorView::SymlinkTargetReadFailed { path: path@, message: message@ },
            ProgramError::SymlinkCreationFailed { source, target, message } =>
                ProgramErrorView::SymlinkCreationFailed {
                source: source@,
                target: target@,
                message: message@,
            },
            ProgramError::FileCopyFailed { source, target, message } =>
                ProgramErrorView::FileCopyFailed {
                source: source@,
                target: target@,
                message: message@,
            },
            ProgramError::TargetDirectoryCreationFailed { path, message } =>
                ProgramErrorView::TargetDirectoryCreationFailed { path: path@, message: message@ },
            ProgramError::TargetRemovalFailed { path, message } =>
                ProgramErrorView::TargetRemovalFailed { path: path@, message: message@ },
            ProgramError::TargetBackupFailed { path, backup_path, message } =>
                ProgramErrorView::TargetBackupFailed {
                path: path@,
                backup_path: backup_path@,
                message: message@,
            },
            ProgramError::BackupAlreadyExists { path } => ProgramErrorView::BackupAlreadyExists {
                path: path@,
            },
            ProgramError::HomeDirectoryUnavailable => ProgramErrorView::HomeDirectoryUnavailable,
            ProgramError::OperationPlanBlocked { diagnostics } =>
                ProgramErrorView::OperationPlanBlocked { diagnostics: texts_view(diagnostics@) },
        }
    }
}

/// A copy of a list of texts with the same contents.
pub fn copy_texts(list: &Vec<String>) -> (res: Vec<String>)
    ensures
        texts_view(res@) == texts_view(list@),
        res@ == list@,
{
    let mut res: Vec<String> = Vec::new();
    let mut i: usize = 0;
    while i < list.len()
        invariant
            i <= list.len(),
            res@ == list@.take(i as int),
        decreases list.len() - i,
    {
        res.push(list[i].clone());
        assert(list@.take(i as int + 1) == list@.take(i as int).push(list@[i as int]));
        i += 1;
    }
    assert(list@.take(list.len() as int) == list@);
    res
}

impl Clone for ProgramError {
    fn clone(&self) -> (res: Self)
        ensures
            res@ == self@,
    {
        match self {
            ProgramError::InvalidConfiguration { message } => ProgramError::InvalidConfiguration {
                message: message.clone(),
            },
            ProgramError::ConfigurationReadFailed { path, message } =>
                ProgramError::ConfigurationReadFailed { path: path.clone(), message: message.clone() },
            ProgramError::MissingEnvironment { vars } => ProgramError::MissingEnvironment {
                vars: copy_texts(vars),
            },
            ProgramError::IncludeNotFound { paths } => ProgramError::IncludeNotFound {
                paths: copy_texts(paths),
            },
            ProgramError::IncludeCycle { cycle } => ProgramError::IncludeCycle {
                cycle: copy_texts(cycle),
            },
            ProgramError::SourceDirectoryReadFailed { path, message } =>
                ProgramError::SourceDirectoryReadFailed {
                path: path.clone(),
                message: message.clone(),
            },
            ProgramError::PathInspectionFailed { path, message } =>
                ProgramError::PathInspectionFailed { path: path.clone(), message: message.clone() },
            ProgramError::SymlinkTargetReadFailed { path, message } =>
                ProgramError::SymlinkTargetReadFailed { path: path.clone(), message: message.clone() },
            ProgramError::SymlinkCreationFailed { source, target, message } =>
                ProgramError::SymlinkCreationFailed {
                source: source.clone(),
                target: target.clone(),
                message: message.clone(),
            },
            ProgramError::FileCopyFailed { source, target, message } =>
                ProgramError::FileCopyFailed {
                source: source.clone(),
                target: target.clone(),
                message: message.clone(),
            },
            ProgramError::TargetDirectoryCreationFailed { path, message } =>
                ProgramError::TargetDirectoryCreationFailed {
                path: path.clone(),
                message: message.clone(),
            },
            ProgramError::TargetRemovalFailed { path, message } =>
                ProgramError::TargetRemovalFailed { path: path.clone(), message: message.clone() },
            ProgramError::TargetBackupFailed { path, backup_path, message } =>
                ProgramError::TargetBackupFailed {
                path: path.clone(),
                backup_path: backup_path.clone(),
                message: message.clone(),
            },
            ProgramError::BackupAlreadyExists { path } => ProgramError::BackupAlreadyExists {
                path: path.clone(),
            },
            ProgramError::HomeDirectoryUnavailable => ProgramError::HomeDirectoryUnavailable,
            ProgramError::OperationPlanBlocked { diagnostics } =>
                ProgramError::OperationPlanBlocked { diagnostics: copy_texts(diagnostics) },
        }
    }
}

/// Where the program looks for its configuration, appended to config read
/// failures.
pub open spec fn config_location_guidance() -> Seq<char> {
    "\n\nConfig file locations\n  - $GITENV_CONFIG (if set)\n  - ${XDG_CONFIG_HOME}/gitenv/config.yml (if $XDG_CONFIG_HOME is set)\n  - ${HOME}/.config/gitenv/config.yml (default fallback)"@
}

/// The user-facing message for an error.
pub open spec fn error_message(error: ProgramErrorView) -> Seq<char> {
    match error {
        ProgramErrorView::InvalidConfiguration { message } => "configuration is invalid ("@
            + message + ")"@,
        ProgramErrorView::ConfigurationReadFailed { path, message } => "cannot read config at "@
            + path + " ("@ + message + ")"@ + config_location_guidance(),
        ProgramErrorView::MissingEnvironment { vars } =>
            "required environment variables are missing ("@ + seq_join(vars, ", "@) + ")"@,
        ProgramErrorView::IncludeNotFound { paths } => "required include files are missing\n  - "@
            + seq_join(paths, "\n  - "@),
        ProgramErrorView::IncludeCycle { cycle } => "include cycle is detected\n  - "@ + seq_join(
            cycle,
            "\n  - "@,
        ),
        ProgramErrorView::SourceDirectoryReadFailed { path, message } =>
            "cannot read source directory "@ + path + " ("@ + message + ")"@,
        ProgramErrorView::PathInspectionFailed { path, message } =>
            "cannot inspect path metadata for "@ + path + " ("@ + message + ")"@,
        ProgramErrorView::SymlinkTargetReadFailed { path, message } =>
            "cannot read symlink target for "@ + path + " ("@ + message + ")"@,
        ProgramErrorView::SymlinkCreationFailed { source, target, message } =>
            "cannot create symlink "@ + target + " -> "@ + source + " ("@ + message + ")"@,
        ProgramErrorView::FileCopyFailed { source, target, message } => "cannot copy file "@
            + source + " -> "@ + target + " ("@ + message + ")"@,
        ProgramErrorView::TargetDirectoryCreationFailed { path, message } =>
            "cannot create target directory "@ + path + " ("@ + message + ")"@,
        ProgramErrorView::TargetRemovalFailed { path, message } =>
            "cannot remove existing target "@ + path + " ("@ + message + ")"@,
        ProgramErrorView::TargetBackupFailed { path, backup_path, message } =>
            "cannot move existing target "@ + path + " to backup "@ + backup_path + " ("@ + message
                + ")"@,
        ProgramErrorView::BackupAlreadyExists { path } =>
            "cannot overwrite because backup already exists at "@ + path,
        ProgramErrorView::HomeDirectoryUnavailable => "cannot resolve home directory from $HOME"@,
        ProgramErrorView::OperationPlanBlocked { diagnostics } =>
            "cannot apply because planned sources are unavailable\n  - "@ + seq_join(
                diagnostics,
                "\n  - "@,
            ),
    }
}

/// `prefix` + `rest` as one text.
fn prefixed(prefix: &str, rest: &str) -> (res: String)
    ensures
        res@ == prefix@ + rest@,
{
    let mut res = String::from_str(prefix);
    res.append(rest);
    res
}

/// `prefix` + `middle` + `suffix` as one text.
fn surround(prefix: &str, middle: &str, suffix: &str) -> (res: String)
    ensures
        res@ == prefix@ + middle@ + suffix@,
{
    let mut res = String::from_str(prefix);
    res.append(middle);
    res.append(suffix);
    res
}

/// `prefix` + `a` + `infix` + `b` + `tail` + `c` + `suffix` as one text.
fn surround_three(
    prefix: &str,
    a: &str,
    infix: &str,
    b: &str,
    tail: &str,
    c: &str,
    suffix: &str,
) -> (res: String)
    ensures
        res@ == prefix@ + a@ + infix@ + b@ + tail@ + c@ + suffix@,
{
    let mut res = String::from_str(prefix);
    res.append(a);
    res.append(infix);
    res.append(b);
    res.append(tail);
    res.append(c);
    res.append(suffix);
    res
}

/// `prefix` + `a` + `infix` + `b` + `suffix` as one text.
fn surround_two(prefix: &str, a: &str, infix: &str, b: &str, suffix: &str) -> (res: String)
    ensures
        res@ == prefix@ + a@ + infix@ + b@ + suffix@,
{
    let mut res = String::from_str(prefix);
    res.append(a);
    res.append(infix);
    res.append(b);
    res.append(suffix);
    res
}

impl ProgramError {
    /// The user-facing message for this error.
    pub fn message(&self) -> (res: String)
        ensures
            res@ == error_message(self@),
    {
        match self {
            ProgramError::InvalidConfiguration { message } => surround(
                "configuration is invalid (",
                message.as_str(),
                ")",
            ),
            ProgramError::ConfigurationReadFailed { path, message } => {
                let mut res = surround_two(
                    "cannot read config at ",
                    path.as_str(),
                    " (",
                    message.as_str(),
                    ")",
                );
                res.append(
                    "\n\nConfig file locations\n  - $GITENV_CONFIG (if set)\n  - ${XDG_CONFIG_HOME}/gitenv/config.yml (if $XDG_CONFIG_HOME is set)\n  - ${HOME}/.config/gitenv/config.yml (default fallback)",
                );
                res
            },
            ProgramError::MissingEnvironment { vars } => {
                let joined = join_texts(vars, ", ");
                surround("required environment variables are missing (", joined.as_str(), ")")
            },
            ProgramError::IncludeNotFound { paths } => {
                let joined = join_texts(paths, "\n  - ");
                prefixed("required include files are missing\n  - ", joined.as_str())
            },
            ProgramError::IncludeCycle { cycle } => {
                let joined = join_texts(cycle, "\n  - ");
                prefixed("include cycle is detected\n  - ", joined.as_str())
            },
            ProgramError::SourceDirectoryReadFailed { path, message } => surround_two(
                "cannot read source directory ",
                path.as_str(),
                " (",
                message.as_str(),
                ")",
            ),
            ProgramError::PathInspectionFailed { path, message } => surround_two(
                "cannot inspect path metadata for ",
                path.as_str(),
                " (",
                message.as_str(),
                ")",
            ),
            ProgramError::SymlinkTargetReadFailed { path, message } => surround_two(
                "cannot read symlink target for ",
                path.as_str(),
                " (",
                message.as_str(),
                ")",
            ),
            ProgramError::SymlinkCreationFailed { source, target, message } => surround_three(
                "cannot create symlink ",
                target.as_str(),
                " -> ",
                source.as_str(),
                " (",
                message.as_str(),
                ")",
            ),
            ProgramError::FileCopyFailed { source, target, message } => surround_three(
                "cannot copy file ",
                source.as_str(),
                " -> ",
                target.as_str(),
                " (",
                message.as_str(),
                ")",
            ),
            ProgramError::TargetDirectoryCreationFailed { path, message } => surround_two(
                "cannot create target directory ",
                path.as_str(),
                " (",
                message.as_str(),
                ")",
            ),
            ProgramError::TargetRemovalFailed { path, message } => surround_two(
                "cannot remove existing target ",
                path.as_str(),
                " (",
                message.as_str(),
                ")",
            ),
            ProgramError::TargetBackupFailed { path, backup_path, message } => surround_three(
                "cannot move existing target ",
                path.as_str(),
                " to backup ",
                backup_path.as_str(),
                " (",
                message.as_str(),
                ")",
            ),
            ProgramError::BackupAlreadyExists { path } => prefixed(
                "cannot overwrite because backup already exists at ",
                path.as_str(),
            ),
            ProgramError::HomeDirectoryUnavailable => String::from_str(
                "cannot resolve home directory from $HOME",
            ),
            ProgramError::OperationPlanBlocked { diagnostics } => {
                let joined = join_texts(diagnostics, "\n  - ");
                prefixed(
                    "cannot apply because planned sources are unavailable\n  - ",
                    joined.as_str(),
                )
            },
        }
    }
}

} // verus!
