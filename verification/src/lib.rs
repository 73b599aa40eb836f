pub mod text;
pub mod errors;
pub mod config;
pub mod intent;
pub mod glob;
pub mod operation;
pub mod status;
pub mod actions;
pub mod color;
pub mod cli;
pub mod logging;
pub mod commands;
pub mod filesystem;

pub use crate::actions::{apply_operation_plan, ApplyOperationOutcome, ApplyOperationReport};
pub use crate::cli::{Cli, Command, LogLevel};
pub use crate::color::{ColorMode, RuntimeConfig};
pub use crate::commands::{run_apply, run_info, ProgramOutput};
pub use crate::config::{
    ActionMode, Config, ConfigItem, Defaults, FileConfig, Guard, Include, LoadedConfig,
    SelectConfig, SelectionType, Source, SourceRoot,
};
pub use crate::errors::{ProgramError, SourceAvailability, SourceUnreadableKind};
pub use crate::intent::{
    derive_intent_plan, ConflictPolicy, IntentAction, IntentFileAction, IntentPlan,
    IntentSelectAction, IntentSource, ResolvedOptions,
};
pub use crate::operation::{
    derive_operation_plan, FileOperation, OperationAction, OperationEntry, OperationPlan,
    OperationPlanningIssue, PlannedOperationAction,
};
pub use crate::status::{
    inspect_copy_operation_status, inspect_operation_plan_status, inspect_symlink_operation_status,
    CopyInspection, CopyInspectionState, OperationInspectionOutcome, OperationInspectionReport,
    SymlinkInspection, SymlinkInspectionState,
};
