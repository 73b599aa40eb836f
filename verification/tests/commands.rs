use gitenv::actions::ApplyRequest;
use gitenv::cli::{render_default_inspection_output, InspectionOutputProgress};
use gitenv::commands::{CommandProgress, CommandReplies, CommandRequest};
use gitenv::intent::IntentRequest;
use gitenv::logging::{LogEvent, RecordLevel};
use gitenv::operation::{OperationRequest, SourceReadError, SourceReadErrorKind};
use gitenv::status::{InspectionReplies, InspectionRequest, PathKind};
use gitenv::{
    run_apply, run_info, ActionMode, ColorMode, Config, ConfigItem, ConflictPolicy, Defaults,
    FileConfig, FileOperation, Guard, Include, LoadedConfig, OperationAction, OperationEntry,
    OperationPlan, PlannedOperationAction, ProgramError, ProgramOutput, RuntimeConfig, Source,
    SourceAvailability, SourceRoot,
};
use std::collections::{BTreeMap, BTreeSet};

/// A stand-in for the machine a command runs on.
#[derive(Default)]
struct Machine {
    environment: BTreeMap<String, String>,
    directories: BTreeSet<String>,
    files: BTreeSet<String>,
    configs: BTreeMap<String, Config>,
    /// Config files that cannot be read, with the error reading them gives.
    config_errors: BTreeMap<String, ProgramError>,
    /// The error every change apply asks for fails with, if any.
    failing_changes: Option<ProgramError>,
}

/// The path with `.` components and repeated separators left out, as the
/// file system resolves it.
fn normalize(path: &str) -> String {
    let parts: Vec<&str> = path.split('/').filter(|p| !p.is_empty() && *p != ".").collect();
    format!("/{}", parts.join("/"))
}

impl Machine {
    fn has_file(&self, path: &str) -> bool {
        self.files.contains(&normalize(path))
    }

    fn answer(&self, request: &CommandRequest, replies: &mut CommandReplies) {
        match request {
            CommandRequest::Intent(IntentRequest::EnvironmentVariable(name)) => {
                replies.intent.environment.push(self.environment.get(name).cloned())
            }
            CommandRequest::Intent(IntentRequest::DirectoryProbe(path)) => {
                replies.intent.directories.push(self.directories.contains(&normalize(path)))
            }
            CommandRequest::Intent(IntentRequest::ConfigFile(path)) => replies.intent.configs.push(
                match self.configs.get(path) {
                    _ if self.config_errors.contains_key(path) => Err(self.config_errors[path].clone()),
                    Some(config) => Ok(LoadedConfig {
                        path: path.clone(),
                        config: config.clone(),
                    }),
                    None => Err(ProgramError::ConfigurationReadFailed {
                        path: path.clone(),
                        message: "not found".to_string(),
                    }),
                },
            ),
            CommandRequest::Operation(OperationRequest::SourceReadable { path, .. }) => {
                replies.operation.readability.push(if self.has_file(path) || self.directories.contains(&normalize(path)) {
                    Ok(())
                } else {
                    Err(SourceReadError {
                        path: path.clone(),
                        kind: SourceReadErrorKind::Missing,
                        message: "not found".to_string(),
                    })
                })
            }
            CommandRequest::Operation(OperationRequest::DirectoryListing(_)) => {
                replies.operation.listings.push(Ok(vec![]))
            }
            CommandRequest::Operation(OperationRequest::TargetDirectoryExists(_)) => {
                replies.operation.target_directories.push(true)
            }
            CommandRequest::Inspection(InspectionRequest::PathKind(path))
            | CommandRequest::Apply(ApplyRequest::Inspect(InspectionRequest::PathKind(path))) => {
                let kind = if self.has_file(path) { PathKind::File } else { PathKind::Missing };
                if matches!(request, CommandRequest::Inspection(_)) {
                    replies.inspection.kinds.push(Ok(kind))
                } else {
                    replies.apply.inspection.kinds.push(Ok(kind))
                }
            }
            CommandRequest::Inspection(other) | CommandRequest::Apply(ApplyRequest::Inspect(other)) => {
                panic!("unexpected inspection question {other:?}")
            }
            CommandRequest::Apply(ApplyRequest::TargetExists(path)) => {
                replies.apply.existence.push(Ok(self.has_file(path)))
            }
            CommandRequest::Apply(_) => replies.apply.changes.push(match &self.failing_changes {
                Some(error) => Err(error.clone()),
                None => Ok(()),
            }),
        }
    }
}

type CommandFn =
    fn(&LoadedConfig, &String, RuntimeConfig, &str, &Option<String>, &CommandReplies, &mut Vec<LogEvent>) -> CommandProgress;

/// Runs a command to its end, with the events of its last call.
fn run_logged(
    command: CommandFn,
    machine: &Machine,
    loaded: &LoadedConfig,
    home: &str,
    runtime_config: RuntimeConfig,
) -> (Result<ProgramOutput, ProgramError>, Vec<LogEvent>) {
    let home = home.to_string();
    let repository_override = machine.environment.get("GITENV_REPO").cloned();
    let mut replies = CommandReplies::new();
    loop {
        let mut events = Vec::new();
        match command(loaded, &home, runtime_config, "linux", &repository_override, &replies, &mut events) {
            CommandProgress::Finished(result) => return (result, events),
            CommandProgress::Needs(request) => machine.answer(&request, &mut replies),
        }
    }
}

fn run(
    command: CommandFn,
    machine: &Machine,
    loaded: &LoadedConfig,
    home: &str,
    runtime_config: RuntimeConfig,
) -> Result<ProgramOutput, ProgramError> {
    run_logged(command, machine, loaded, home, runtime_config).0
}

fn make_config(repository: &str, sources: Vec<Source>) -> Config {
    Config {
        version: 1,
        repository: repository.to_string(),
        defaults: Defaults::default(),
        includes: vec![],
        sources,
    }
}

fn make_source(destination: &str, configs: Vec<ConfigItem>) -> Source {
    Source {
        from: SourceRoot::Path(".".to_string()),
        to: Some(destination.to_string()),
        guard: None,
        configs,
    }
}

fn make_file_config(file: &str, mode: ActionMode) -> ConfigItem {
    ConfigItem::File(FileConfig {
        file: file.to_string(),
        as_name: None,
        mode: Some(mode),
        to: None,
        mkdir: None,
        overwrite: None,
        backup_on_overwrite: None,
    })
}

fn make_loaded_config(config: Config) -> LoadedConfig {
    LoadedConfig {
        path: "/tmp/gitenv-test-config.yml".to_string(),
        config,
    }
}

fn environment_source_config() -> Config {
    make_config(
        "/repo",
        vec![Source {
            from: SourceRoot::Environment {
                env: "MISSING_SOURCE_ROOT".to_string(),
                optional: false,
            },
            to: Some("/tmp".to_string()),
            guard: None,
            configs: vec![make_file_config(".gitconfig", ActionMode::Symlink)],
        }],
    )
}

fn plain() -> RuntimeConfig {
    RuntimeConfig::new(ColorMode::Auto, false, false)
}

fn machine_with_files(files: &[&str]) -> Machine {
    Machine {
        files: files.iter().map(|f| f.to_string()).collect(),
        ..Machine::default()
    }
}

// The info command.

#[test]
fn show_info_output_for_a_missing_symlink_through_every_stage() {
    let machine = machine_with_files(&["/repo/.gitconfig"]);
    let loaded = make_loaded_config(make_config(
        "/repo",
        vec![make_source("/tmp/home", vec![make_file_config(".gitconfig", ActionMode::Symlink)])],
    ));

    let output = run(run_info, &machine, &loaded, "/tmp/home", plain()).expect("info should run");

    assert_eq!(output.message, "~/.gitconfig -> /repo/./.gitconfig   not yet set up");
}

#[test]
fn show_info_output_for_sources_of_a_relative_include() {
    let shared = make_config(
        "/repo",
        vec![Source {
            from: SourceRoot::Path(".".to_string()),
            to: None,
            guard: None,
            configs: vec![ConfigItem::File(FileConfig {
                file: "shared.conf".to_string(),
                as_name: Some(".shared.conf".to_string()),
                mode: None,
                to: None,
                mkdir: None,
                overwrite: None,
                backup_on_overwrite: None,
            })],
        }],
    );
    let mut machine = machine_with_files(&["/repo/root.conf", "/repo/shared.conf"]);
    machine.configs.insert("/home/configs/includes/shared.yml".to_string(), shared);
    let loaded = LoadedConfig {
        path: "/home/configs/root.yml".to_string(),
        config: Config {
            version: 1,
            repository: "/repo".to_string(),
            defaults: Defaults::default(),
            includes: vec![Include::Path {
                path: "includes/shared.yml".to_string(),
                optional: false,
            }],
            sources: vec![Source {
                from: SourceRoot::Path(".".to_string()),
                to: None,
                guard: None,
                configs: vec![ConfigItem::File(FileConfig {
                    file: "root.conf".to_string(),
                    as_name: Some(".root.conf".to_string()),
                    mode: None,
                    to: None,
                    mkdir: None,
                    overwrite: None,
                    backup_on_overwrite: None,
                })],
            }],
        },
    };

    let output = run(run_info, &machine, &loaded, "/tmp/home", plain()).expect("info should run");

    let expected = "~/.root.conf -> /repo/./root.conf   not yet set up\n~/.shared.conf -> /repo/./shared.conf   not yet set up";
    assert_eq!(output.message, expected);
}

#[test]
fn cannot_run_info_when_source_environment_is_missing() {
    let error = run(run_info, &Machine::default(), &make_loaded_config(environment_source_config()), "/tmp/home", plain())
        .expect_err("error from intent planning should propagate");

    assert_eq!(
        error,
        ProgramError::MissingEnvironment {
            vars: vec!["MISSING_SOURCE_ROOT".to_string()],
        }
    );
}

#[test]
fn show_info_output_in_color_when_stdout_takes_it() {
    let machine = machine_with_files(&["/repo/.gitconfig"]);
    let loaded = make_loaded_config(make_config(
        "/repo",
        vec![make_source("/tmp/home", vec![make_file_config(".gitconfig", ActionMode::Symlink)])],
    ));

    let output = run(run_info, &machine, &loaded, "/tmp/home", RuntimeConfig::new(ColorMode::Yes, false, false))
        .expect("info should run");

    assert_eq!(output.message, "~/.gitconfig -> /repo/./.gitconfig   \x1b[33mnot yet set up\x1b[0m");
}

// The apply command.

#[test]
fn show_apply_output_when_directory_guard_is_satisfied() {
    let mut machine = machine_with_files(&["/repo/guarded.conf"]);
    machine.directories.insert("/tmp/home".to_string());
    let loaded = make_loaded_config(make_config(
        "/repo",
        vec![Source {
            from: SourceRoot::Path(".".to_string()),
            to: Some("/tmp/home".to_string()),
            guard: Some(Guard::ToExists),
            configs: vec![make_file_config("guarded.conf", ActionMode::Symlink)],
        }],
    ));

    let output = run(run_apply, &machine, &loaded, "/tmp/home", plain()).expect("apply should run");

    assert!(output.message.contains("guarded.conf"));
    assert_eq!(output.message, "created symlink ~/guarded.conf -> /repo/./guarded.conf");
}

#[test]
fn show_apply_output_for_a_missing_symlink() {
    let machine = machine_with_files(&["/repo/.gitconfig"]);
    let loaded = make_loaded_config(make_config(
        "/repo",
        vec![make_source("/tmp/home", vec![make_file_config(".gitconfig", ActionMode::Symlink)])],
    ));

    let output = run(run_apply, &machine, &loaded, "/tmp/home", plain()).expect("apply should run");

    assert!(output.message.contains(".gitconfig"));
}

#[test]
fn cannot_run_apply_when_source_environment_is_missing() {
    let error = run(run_apply, &Machine::default(), &make_loaded_config(environment_source_config()), "/tmp/home", plain())
        .expect_err("error from intent planning should propagate");

    assert_eq!(
        error,
        ProgramError::MissingEnvironment {
            vars: vec!["MISSING_SOURCE_ROOT".to_string()],
        }
    );
}

#[test]
fn show_apply_output_when_operations_are_empty() {
    let output = run(run_apply, &Machine::default(), &make_loaded_config(make_config("/repo", vec![])), "/tmp/home", plain())
        .expect("apply should run with empty operations");

    assert_eq!(output.message, "No operations to apply.");
}

#[test]
fn show_apply_output_for_a_loaded_config() {
    let machine = machine_with_files(&["/repo/.profile"]);
    let loaded = make_loaded_config(make_config(
        "/repo",
        vec![make_source("/tmp/home", vec![make_file_config(".profile", ActionMode::Symlink)])],
    ));

    let output = run(run_apply, &machine, &loaded, "/tmp/home", plain()).expect("apply should run");

    assert!(output.message.contains(".profile"));
}

#[test]
fn refuse_to_apply_while_a_planned_source_is_missing() {
    let loaded = make_loaded_config(make_config(
        "/repo",
        vec![make_source("/tmp/home", vec![make_file_config(".absent", ActionMode::Symlink)])],
    ));

    let error = run(run_apply, &Machine::default(), &loaded, "/tmp/home", plain())
        .expect_err("apply must not start while a source is missing");

    assert_eq!(
        error,
        ProgramError::OperationPlanBlocked {
            diagnostics: vec!["source /repo/./.absent for /tmp/home/.absent is missing".to_string()],
        }
    );
}

#[test]
fn report_an_existing_target_as_skipped_by_apply() {
    let machine = machine_with_files(&["/repo/.profile", "/tmp/home/.profile"]);
    let loaded = make_loaded_config(make_config(
        "/repo",
        vec![make_source("/tmp/home", vec![make_file_config(".profile", ActionMode::Symlink)])],
    ));

    let output = run(run_apply, &machine, &loaded, "/tmp/home", plain()).expect("apply should run");

    assert_eq!(output.message, "skipped symlink ~/.profile (already exists)");
}

// The info command with its planning stages standing in: its output is the
// rendering of the operation plan the stages hand over.

fn render_on_empty_disk(plan: &OperationPlan, home: &str, runtime_config: RuntimeConfig) -> Result<String, ProgramError> {
    let home = home.to_string();
    let mut replies = InspectionReplies::new();
    loop {
        match render_default_inspection_output(plan, &home, runtime_config.use_color_for_stdout, &replies) {
            InspectionOutputProgress::Finished(result) => return result,
            InspectionOutputProgress::Needs(InspectionRequest::PathKind(_)) => replies.kinds.push(Ok(PathKind::Missing)),
            InspectionOutputProgress::Needs(other) => panic!("unexpected question {other:?}"),
        }
    }
}

fn handed_over(actions: Vec<OperationAction>) -> OperationPlan {
    OperationPlan {
        entries: actions
            .into_iter()
            .map(|action| {
                OperationEntry::Action(PlannedOperationAction {
                    action,
                    source_availability: SourceAvailability::Available,
                    skip_reason: None,
                })
            })
            .collect(),
    }
}

fn symlink_to_home(source: &str, target: &str) -> OperationAction {
    OperationAction::Symlink(FileOperation {
        source: source.to_string(),
        target: target.to_string(),
        mkdir: true,
        conflict_policy: ConflictPolicy::Skip,
    })
}

#[test]
fn show_default_inspection_output_for_a_missing_symlink() {
    let operation_plan = handed_over(vec![symlink_to_home("/repo/.gitconfig", "/tmp/home/.gitconfig")]);

    let output = render_on_empty_disk(&operation_plan, "/tmp/home", plain()).expect("rendering should run");

    assert_eq!(output, "~/.gitconfig -> /repo/.gitconfig   not yet set up");
}

#[test]
fn show_default_inspection_output_when_config_path_is_provided_for_relative_include() {
    let operation_plan = handed_over(vec![
        symlink_to_home("/repo/root.conf", "/tmp/home/.root.conf"),
        symlink_to_home("/repo/shared.conf", "/tmp/home/.shared.conf"),
    ]);

    let output = render_on_empty_disk(&operation_plan, "/tmp/home", plain()).expect("rendering should run");

    let expected = "~/.root.conf -> /repo/root.conf   not yet set up\n~/.shared.conf -> /repo/shared.conf   not yet set up";
    assert_eq!(output, expected);
}

#[test]
fn cannot_run_info_when_copy_source_cannot_be_read() {
    let operation_plan = handed_over(vec![OperationAction::Copy(FileOperation {
        source: "/repo/missing.txt".to_string(),
        target: "/tmp/home/missing.txt".to_string(),
        mkdir: true,
        conflict_policy: ConflictPolicy::Skip,
    })]);

    let output = render_on_empty_disk(&operation_plan, "/tmp/home", plain()).expect("rendering should produce output");

    assert!(output.contains("missing.txt"));
}

#[test]
fn show_info_output_when_directory_guard_is_satisfied() {
    let operation_plan = handed_over(vec![symlink_to_home("/repo/guarded.conf", "/tmp/home/guarded.conf")]);

    let output = render_on_empty_disk(&operation_plan, "/tmp/home", plain()).expect("orchestration should run with fake stages");

    assert_eq!(output, format!("~/{} -> /repo/guarded.conf   not yet set up", "guarded.conf"));
}

// The repository variable and the events of a command.

#[test]
fn show_the_repository_precedence_source_in_debug_logs() {
    let mut machine = machine_with_files(&["/env-repo/.gitconfig"]);
    machine.environment.insert("GITENV_REPO".to_string(), "/env-repo".to_string());
    let loaded = make_loaded_config(make_config(
        "/config-repo",
        vec![make_source("/tmp/home", vec![make_file_config(".gitconfig", ActionMode::Symlink)])],
    ));

    let (output, events) = run_logged(run_info, &machine, &loaded, "/tmp/home", plain());

    assert_eq!(output.expect("info should run").message, "~/.gitconfig -> /env-repo/./.gitconfig   not yet set up");
    assert!(events.iter().any(|event| event.level == RecordLevel::Debug
        && event.target == "gitenv::intent"
        && event.message.contains("resolved repository root from env precedence source")));
}

#[test]
fn use_the_configured_repository_when_the_repository_variable_is_unset() {
    let machine = machine_with_files(&["/config-repo/.gitconfig"]);
    let loaded = make_loaded_config(make_config(
        "/config-repo",
        vec![make_source("/tmp/home", vec![make_file_config(".gitconfig", ActionMode::Symlink)])],
    ));

    let (output, events) = run_logged(run_info, &machine, &loaded, "/tmp/home", plain());

    assert_eq!(output.expect("info should run").message, "~/.gitconfig -> /config-repo/./.gitconfig   not yet set up");
    assert!(events.iter().any(|event| event.message
        == "event=repository_root_resolved resolved repository root from config precedence source repository=/config-repo"));
}

#[test]
fn report_the_events_of_every_stage_of_apply_in_order() {
    let machine = machine_with_files(&["/repo/.gitconfig"]);
    let loaded = make_loaded_config(make_config(
        "/repo",
        vec![make_source("/tmp/home", vec![make_file_config(".gitconfig", ActionMode::Symlink)])],
    ));

    let (output, events) = run_logged(run_apply, &machine, &loaded, "/tmp/home", plain());

    assert!(output.is_ok());
    let messages: Vec<(String, String)> =
        events.iter().map(|event| (event.target.clone(), event.message.clone())).collect();
    assert_eq!(
        messages,
        vec![
            ("gitenv::intent".to_string(), "event=intent_plan_start repository=/repo sources=1 includes=0".to_string()),
            ("gitenv::intent".to_string(), "event=intent_plan_success sources=1".to_string()),
            (
                "gitenv::intent".to_string(),
                "event=repository_root_resolved resolved repository root from config precedence source repository=/repo".to_string()
            ),
            ("gitenv::operation".to_string(), "event=operation_plan_start repository=/repo sources=1".to_string()),
            ("gitenv::operation".to_string(), "event=operation_plan_success entries=1".to_string()),
            ("gitenv::actions".to_string(), "event=apply_operation_plan_start entries=1".to_string()),
            ("gitenv::actions".to_string(), "event=apply_action_processed kind=symlink".to_string()),
            ("gitenv::actions".to_string(), "event=apply_operation_plan_success outcomes=1".to_string()),
        ]
    );
}

#[test]
fn report_only_the_start_of_a_stage_that_fails() {
    let (output, events) = run_logged(
        run_info,
        &Machine::default(),
        &make_loaded_config(environment_source_config()),
        "/tmp/home",
        plain(),
    );

    assert!(output.is_err());
    assert_eq!(events.len(), 1);
    assert!(events[0].message.starts_with("event=intent_plan_start"));
}

#[test]
fn cannot_run_apply_when_a_change_fails() {
    struct Failing(Machine);
    let machine = Failing(machine_with_files(&["/repo/.gitconfig"]));
    let loaded = make_loaded_config(make_config(
        "/repo",
        vec![make_source("/tmp/home", vec![make_file_config(".gitconfig", ActionMode::Symlink)])],
    ));
    let home = "/tmp/home".to_string();
    let mut replies = CommandReplies::new();
    let result = loop {
        let mut events = Vec::new();
        match run_apply(&loaded, &home, plain(), "linux", &None, &replies, &mut events) {
            CommandProgress::Finished(result) => break result,
            CommandProgress::Needs(CommandRequest::Apply(ApplyRequest::CreateSymlink { source, target })) => {
                replies.apply.changes.push(Err(ProgramError::SymlinkCreationFailed {
                    source,
                    target,
                    message: "Permission denied (os error 13)".to_string(),
                }))
            }
            CommandProgress::Needs(request) => machine.0.answer(&request, &mut replies),
        }
    };

    assert_eq!(
        result,
        Err(ProgramError::SymlinkCreationFailed {
            source: "/repo/./.gitconfig".to_string(),
            target: "/tmp/home/.gitconfig".to_string(),
            message: "Permission denied (os error 13)".to_string(),
        })
    );
}

// Errors of a stage, passed on by the command.

/// A configuration whose one include stands in for a stage that fails.
fn config_including(shared: &str) -> LoadedConfig {
    let mut config = make_config("/repo", vec![]);
    config.includes = vec![Include::Path { path: shared.to_string(), optional: false }];
    make_loaded_config(config)
}

#[test]
fn cannot_apply_operations_when_source_directory_cannot_be_read_during_apply_planning() {
    let mut machine = Machine::default();
    machine.config_errors.insert(
        "/inc/shared.yml".to_string(),
        ProgramError::SourceDirectoryReadFailed { path: "missing-dir".to_string(), message: "not found".to_string() },
    );

    let error = run(run_apply, &machine, &config_including("/inc/shared.yml"), "/tmp/home", plain())
        .expect_err("error from intent planner should propagate");

    assert_eq!(
        std::mem::discriminant(&error),
        std::mem::discriminant(&ProgramError::SourceDirectoryReadFailed { path: String::new(), message: String::new() })
    );
}

#[test]
fn cannot_run_info_when_a_source_directory_cannot_be_read() {
    let mut machine = Machine::default();
    machine.config_errors.insert(
        "/inc/shared.yml".to_string(),
        ProgramError::SourceDirectoryReadFailed { path: "missing-dir".to_string(), message: "not found".to_string() },
    );

    let error = run(run_info, &machine, &config_including("/inc/shared.yml"), "/tmp/home", plain())
        .expect_err("error from intent planner should propagate");

    assert_eq!(
        std::mem::discriminant(&error),
        std::mem::discriminant(&ProgramError::SourceDirectoryReadFailed { path: String::new(), message: String::new() })
    );
}

// Operation planning records unreadable sources in the plan and never fails
// by itself; a failure met while planning is passed on unchanged.
#[test]
fn cannot_run_apply_when_operation_planning_fails() {
    let mut machine = Machine::default();
    machine.config_errors.insert(
        "/inc/shared.yml".to_string(),
        ProgramError::SourceDirectoryReadFailed {
            path: "missing-operation-source".to_string(),
            message: "cannot read source".to_string(),
        },
    );

    let error = run(run_apply, &machine, &config_including("/inc/shared.yml"), "/tmp/home", plain())
        .expect_err("error from operation planner should propagate");

    assert_eq!(
        error,
        ProgramError::SourceDirectoryReadFailed {
            path: "missing-operation-source".to_string(),
            message: "cannot read source".to_string(),
        }
    );
}

#[test]
fn cannot_run_apply_when_apply_execution_fails() {
    let mut machine = machine_with_files(&["/repo/.gitconfig"]);
    machine.failing_changes = Some(ProgramError::OperationPlanBlocked { diagnostics: vec!["blocked by test".to_string()] });
    let loaded = make_loaded_config(make_config(
        "/repo",
        vec![make_source("/tmp/home", vec![make_file_config(".gitconfig", ActionMode::Symlink)])],
    ));

    let error = run(run_apply, &machine, &loaded, "/tmp/home", plain()).expect_err("error from apply execution should propagate");

    assert_eq!(error, ProgramError::OperationPlanBlocked { diagnostics: vec!["blocked by test".to_string()] });
}
