use gitenv::cli::{
    availability_state_text, display_path_with_home, render_apply_output,
    render_default_inspection_output, InspectionOutputProgress,
};
use gitenv::operation::OperationSkipReason;
use gitenv::status::{InspectionReplies, InspectionRequest, PathKind};
use gitenv::{
    ApplyOperationOutcome, ApplyOperationReport, ConflictPolicy, FileOperation, OperationAction,
    OperationEntry, OperationPlan, OperationPlanningIssue, PlannedOperationAction, ProgramError,
    SourceAvailability, SourceUnreadableKind,
};

const NON_MATCHING_HOME: &str = "/nonexistent/home";

/// What inspection reads of the file system.
struct Disk<'a> {
    kind: &'a dyn Fn(&str) -> Result<PathKind, ProgramError>,
    link: &'a dyn Fn(&str) -> Result<String, ProgramError>,
    digest: &'a dyn Fn(&str) -> Result<u64, ProgramError>,
}

fn nothing_there(_: &str) -> Result<PathKind, ProgramError> {
    Ok(PathKind::Missing)
}

fn unreadable_link(path: &str) -> Result<String, ProgramError> {
    Err(ProgramError::SymlinkTargetReadFailed {
        path: path.to_string(),
        message: "not a symlink".to_string(),
    })
}

fn unreadable_digest(path: &str) -> Result<u64, ProgramError> {
    Err(ProgramError::PathInspectionFailed {
        path: path.to_string(),
        message: "unreadable".to_string(),
    })
}

const EMPTY_DISK: Disk<'static> = Disk {
    kind: &nothing_there,
    link: &unreadable_link,
    digest: &unreadable_digest,
};

/// Renders the inspection output of a plan against the disk.
fn render(plan: &OperationPlan, home: &str, use_color: bool, disk: &Disk) -> Result<String, ProgramError> {
    let home = home.to_string();
    let mut replies = InspectionReplies::new();
    loop {
        match render_default_inspection_output(plan, &home, use_color, &replies) {
            InspectionOutputProgress::Finished(result) => return result,
            InspectionOutputProgress::Needs(InspectionRequest::PathKind(path)) => {
                replies.kinds.push((disk.kind)(&path))
            }
            InspectionOutputProgress::Needs(InspectionRequest::SymlinkTarget(path)) => {
                replies.symlink_targets.push((disk.link)(&path))
            }
            InspectionOutputProgress::Needs(InspectionRequest::ContentDigest(path)) => {
                replies.digests.push((disk.digest)(&path))
            }
        }
    }
}

fn apply_output(report: &ApplyOperationReport, home: &str, use_color: bool) -> String {
    render_apply_output(report, &home.to_string(), use_color)
}

fn operation(source: &str, target: &str) -> FileOperation {
    FileOperation {
        source: source.to_string(),
        target: target.to_string(),
        mkdir: false,
        conflict_policy: ConflictPolicy::Skip,
    }
}

fn available_operation_plan(actions: Vec<OperationAction>) -> OperationPlan {
    OperationPlan {
        entries: actions
            .into_iter()
            .map(|action| {
                OperationEntry::Action(PlannedOperationAction {
                    action,
                    source_availability: SourceAvailability::Available,
                    skip_reason: None,
                })
            })
            .collect(),
    }
}

#[test]
fn render_a_missing_symlink_status_line() {
    let output = render(
        &available_operation_plan(vec![OperationAction::Symlink(operation("/repo/.gitconfig", "/home/.gitconfig"))]),
        NON_MATCHING_HOME,
        false,
        &EMPTY_DISK,
    )
    .expect("status rendering should succeed for a valid operation plan");

    assert_eq!(output, "/home/.gitconfig -> /repo/.gitconfig   not yet set up");
}

#[test]
fn render_operation_lines_for_each_inspection_state() {
    let output = render(
        &available_operation_plan(vec![
            OperationAction::Symlink(operation("/repo/.zshrc", "/home/.zshrc")),
            OperationAction::Copy(operation("/repo/.gitconfig", "/home/.gitconfig")),
        ]),
        NON_MATCHING_HOME,
        false,
        &EMPTY_DISK,
    )
    .expect("status rendering should support symlink and copy outcomes");

    assert_eq!(
        output,
        "/home/.zshrc -> /repo/.zshrc   not yet set up\n/home/.gitconfig <- /repo/.gitconfig   not yet set up"
    );
}

#[test]
fn render_unavailable_actions_and_planning_issues_in_order() {
    let output = render(
        &OperationPlan {
            entries: vec![
                OperationEntry::Action(PlannedOperationAction {
                    action: OperationAction::Symlink(operation("/repo/private/.zshrc", "/home/.zshrc")),
                    source_availability: SourceAvailability::Unreadable {
                        kind: SourceUnreadableKind::PermissionDenied,
                        message: "permission denied".to_string(),
                    },
                    skip_reason: None,
                }),
                OperationEntry::Action(PlannedOperationAction {
                    action: OperationAction::Copy(operation("/repo/private/.gitconfig", "/home/.gitconfig")),
                    source_availability: SourceAvailability::Unreadable {
                        kind: SourceUnreadableKind::UnexpectedIo,
                        message: "input/output error".to_string(),
                    },
                    skip_reason: None,
                }),
                OperationEntry::Issue(OperationPlanningIssue {
                    path: "/repo/profiles".to_string(),
                    source_availability: SourceAvailability::Missing,
                }),
            ],
        },
        NON_MATCHING_HOME,
        false,
        &EMPTY_DISK,
    )
    .expect("status rendering should support unavailable entries");

    assert_eq!(
        output,
        "/home/.zshrc -> /repo/private/.zshrc   source is unreadable (permission denied)\n/home/.gitconfig <- /repo/private/.gitconfig   source is unreadable (input/output error)\n/repo/profiles   source root is missing"
    );
    assert_eq!(availability_state_text(&SourceAvailability::Available, "source"), "source is available");
    assert_eq!(availability_state_text(&SourceAvailability::Missing, "source"), "source is missing");
    assert_eq!(
        availability_state_text(
            &SourceAvailability::Unreadable {
                kind: SourceUnreadableKind::UnexpectedIo,
                message: "boom".to_string(),
            },
            "source root"
        ),
        "source root is unreadable (boom)"
    );
}

#[test]
fn render_recursive_entries_skipped_for_missing_target_directories() {
    let symlink_operation = FileOperation {
        mkdir: true,
        ..operation("/repo/nested/tool.conf", "/home/profiles/nested/tool.conf")
    };
    let copy_operation = FileOperation {
        mkdir: true,
        ..operation("/repo/nested/tool-copy.conf", "/home/profiles/nested/tool-copy.conf")
    };

    let info_output = render(
        &OperationPlan {
            entries: vec![OperationEntry::Action(PlannedOperationAction {
                action: OperationAction::Symlink(symlink_operation.clone()),
                source_availability: SourceAvailability::Available,
                skip_reason: Some(OperationSkipReason::MissingTargetDirectory),
            })],
        },
        NON_MATCHING_HOME,
        false,
        &EMPTY_DISK,
    )
    .expect("status rendering should preserve skipped recursive entries");

    let apply_output = apply_output(
        &ApplyOperationReport {
            outcomes: vec![
                ApplyOperationOutcome::SkippedMissingTargetDirectory(OperationAction::Symlink(symlink_operation)),
                ApplyOperationOutcome::SkippedMissingTargetDirectory(OperationAction::Copy(copy_operation)),
            ],
        },
        NON_MATCHING_HOME,
        false,
    );

    assert_eq!(
        info_output,
        "/home/profiles/nested/tool.conf -> /repo/nested/tool.conf   target directory is missing"
    );
    assert_eq!(
        apply_output,
        "skipped symlink /home/profiles/nested/tool.conf (target directory is missing)\nskipped copy /home/profiles/nested/tool-copy.conf (target directory is missing)"
    );
}

#[test]
fn render_points_elsewhere_and_copy_state_lines() {
    let kind = |path: &str| {
        Ok(match path {
            "/t/target-symlink" => PathKind::Symlink,
            "/t/copy-target-not-a-file" => PathKind::Other,
            _ => PathKind::File,
        })
    };
    let link = |_: &str| Ok("/t/other-symlink-target".to_string());
    let digest = |path: &str| {
        Ok(match path {
            "/t/copy-source-differs" => 1u64,
            "/t/copy-target-differs" => 2u64,
            _ => 7u64,
        })
    };
    let disk = Disk {
        kind: &kind,
        link: &link,
        digest: &digest,
    };

    let output = render(
        &available_operation_plan(vec![
            OperationAction::Symlink(operation("/t/source-symlink", "/t/target-symlink")),
            OperationAction::Copy(operation("/t/copy-source-ok", "/t/copy-target-ok")),
            OperationAction::Copy(operation("/t/copy-source-differs", "/t/copy-target-differs")),
            OperationAction::Copy(operation("/t/copy-source-not-a-file", "/t/copy-target-not-a-file")),
        ]),
        NON_MATCHING_HOME,
        false,
        &disk,
    )
    .expect("status rendering should cover all state branches");

    assert_eq!(
        output,
        "/t/target-symlink -> /t/source-symlink   points to /t/other-symlink-target\n/t/copy-target-ok <- /t/copy-source-ok   ok\n/t/copy-target-differs <- /t/copy-source-differs   differs from source\n/t/copy-target-not-a-file <- /t/copy-source-not-a-file   not a file"
    );
}

#[test]
fn render_no_operation_message_when_nothing_is_planned() {
    let output = render(&available_operation_plan(vec![]), NON_MATCHING_HOME, false, &EMPTY_DISK)
        .expect("empty operation plans should render a stable status message");

    assert_eq!(output, "No operations to inspect.");
}

#[test]
fn show_no_operations_to_apply_message_when_outcomes_are_empty() {
    let report = ApplyOperationReport { outcomes: vec![] };
    assert_eq!(apply_output(&report, NON_MATCHING_HOME, false), "No operations to apply.");
}

#[test]
fn show_applied_operation_lines_for_symlink_and_copy_actions() {
    let output = apply_output(
        &ApplyOperationReport {
            outcomes: vec![
                ApplyOperationOutcome::Applied(OperationAction::Symlink(operation("/repo/.zshrc", "/home/.zshrc"))),
                ApplyOperationOutcome::Applied(OperationAction::Copy(operation("/repo/config.txt", "/home/config.txt"))),
            ],
        },
        NON_MATCHING_HOME,
        false,
    );

    assert_eq!(
        output,
        "created symlink /home/.zshrc -> /repo/.zshrc\ncopied /repo/config.txt to /home/config.txt"
    );
}

#[test]
fn show_skipped_operation_lines_for_symlink_and_copy_actions() {
    let output = apply_output(
        &ApplyOperationReport {
            outcomes: vec![
                ApplyOperationOutcome::SkippedExistingTarget(OperationAction::Symlink(operation("/repo/.zshrc", "/home/.zshrc"))),
                ApplyOperationOutcome::SkippedExistingTarget(OperationAction::Copy(operation("/repo/config.txt", "/home/config.txt"))),
            ],
        },
        NON_MATCHING_HOME,
        false,
    );

    assert_eq!(
        output,
        "skipped symlink /home/.zshrc (already exists)\nskipped copy /home/config.txt (already exists)"
    );
}

#[test]
fn show_unsupported_operation_lines_for_symlink_and_copy_actions() {
    let output = apply_output(
        &ApplyOperationReport {
            outcomes: vec![
                ApplyOperationOutcome::UnsupportedOperation(OperationAction::Symlink(operation("/repo/.zshrc", "/home/.zshrc"))),
                ApplyOperationOutcome::UnsupportedOperation(OperationAction::Copy(operation("/repo/config.txt", "/home/config.txt"))),
            ],
        },
        NON_MATCHING_HOME,
        false,
    );

    assert_eq!(
        output,
        "unsupported: symlink /home/.zshrc -> /repo/.zshrc\nunsupported: copy /repo/config.txt to /home/config.txt"
    );
}

#[test]
fn render_colorized_primary_status_states() {
    let kind = |path: &str| {
        Ok(match path {
            "/t/target-ok" => PathKind::Symlink,
            "/t/target-not-a-symlink" => PathKind::File,
            _ => PathKind::Missing,
        })
    };
    let link = |_: &str| Ok("/t/source-ok".to_string());
    let disk = Disk {
        kind: &kind,
        link: &link,
        digest: &unreadable_digest,
    };

    let output = render(
        &available_operation_plan(vec![
            OperationAction::Symlink(operation("/t/source-ok", "/t/target-ok")),
            OperationAction::Symlink(operation("/t/source-missing", "/t/target-missing")),
            OperationAction::Symlink(operation("/t/source-not-a-symlink", "/t/target-not-a-symlink")),
        ]),
        NON_MATCHING_HOME,
        true,
        &disk,
    )
    .expect("colorized status rendering should succeed");

    assert!(output.contains("\x1b[32mok\x1b[0m"));
    assert!(output.contains("\x1b[33mnot yet set up\x1b[0m"));
    assert!(output.contains("\x1b[31mnot a symlink\x1b[0m"));
}

#[test]
fn render_colorized_apply_outcome_prefixes() {
    let op = operation("/repo/.gitconfig", "/home/.gitconfig");
    let output = apply_output(
        &ApplyOperationReport {
            outcomes: vec![
                ApplyOperationOutcome::Applied(OperationAction::Symlink(op.clone())),
                ApplyOperationOutcome::SkippedExistingTarget(OperationAction::Symlink(op.clone())),
                ApplyOperationOutcome::UnsupportedOperation(OperationAction::Symlink(op)),
            ],
        },
        NON_MATCHING_HOME,
        true,
    );

    assert!(output.contains("\x1b[32mcreated symlink\x1b[0m"));
    assert!(output.contains("\x1b[33mskipped symlink\x1b[0m"));
    assert!(output.contains("\x1b[31munsupported: symlink\x1b[0m"));
}

#[test]
fn disable_colors_when_use_color_is_false() {
    let output = apply_output(
        &ApplyOperationReport {
            outcomes: vec![ApplyOperationOutcome::Applied(OperationAction::Symlink(operation(
                "/repo/.gitconfig",
                "/home/.gitconfig",
            )))],
        },
        NON_MATCHING_HOME,
        false,
    );

    assert_eq!(output, "created symlink /home/.gitconfig -> /repo/.gitconfig");
}

#[test]
fn display_paths_under_home_directory_with_tilde_prefix() {
    let result = display_path_with_home(&"/home/user/.config/gitenv".to_string(), &"/home/user".to_string());
    assert_eq!(result, "~/.config/gitenv");
}

#[test]
fn display_paths_outside_home_directory_unchanged() {
    let result = display_path_with_home(&"/etc/config".to_string(), &"/home/user".to_string());
    assert_eq!(result, "/etc/config");
}

#[test]
fn display_paths_exactly_at_home_directory_with_tilde() {
    let home = "/home/user".to_string();
    assert_eq!(display_path_with_home(&home, &home), "~");
}

#[test]
fn do_not_replace_home_prefix_for_paths_that_only_share_a_string_prefix() {
    let result = display_path_with_home(&"/home/username2/bar".to_string(), &"/home/username".to_string());
    assert_eq!(result, "/home/username2/bar");
}

#[test]
fn render_operation_line_with_home_relative_paths() {
    let output = render(
        &available_operation_plan(vec![OperationAction::Symlink(operation(
            "/home/user/.dotfiles/.gitconfig",
            "/home/user/.gitconfig",
        ))]),
        "/home/user",
        false,
        &EMPTY_DISK,
    )
    .expect("home-relative rendering should succeed");

    assert!(output.contains("~/.gitconfig -> ~/.dotfiles/.gitconfig   not yet set up"));
}

#[test]
fn fail_the_rendering_when_a_path_cannot_be_inspected() {
    let failing = |path: &str| {
        Err(ProgramError::PathInspectionFailed {
            path: path.to_string(),
            message: "permission denied".to_string(),
        })
    };
    let disk = Disk {
        kind: &failing,
        link: &unreadable_link,
        digest: &unreadable_digest,
    };

    let error = render(
        &available_operation_plan(vec![OperationAction::Copy(operation("/repo/a", "/home/a"))]),
        NON_MATCHING_HOME,
        false,
        &disk,
    )
    .expect_err("inspection failures should propagate");

    assert_eq!(
        error,
        ProgramError::PathInspectionFailed {
            path: "/home/a".to_string(),
            message: "permission denied".to_string(),
        }
    );
}

#[test]
fn show_home_paths_as_their_components_read() {
    let home = "/home/user".to_string();
    assert_eq!(display_path_with_home(&"/home/user//a".to_string(), &home), "~/a");
    assert_eq!(display_path_with_home(&"/home/user/./a/".to_string(), &home), "~/a");
    assert_eq!(display_path_with_home(&"/home/user/a//b".to_string(), &home), "~/a//b");
    assert_eq!(display_path_with_home(&"/home/user".to_string(), &"/home/user/".to_string()), "~");
    assert_eq!(display_path_with_home(&"/home/user/.zshrc".to_string(), &"/home//user/".to_string()), "~/.zshrc");
    assert_eq!(display_path_with_home(&"/home/user2/.zshrc".to_string(), &home), "/home/user2/.zshrc");
}

#[test]
fn show_every_path_under_an_empty_home_directory() {
    let home = String::new();
    assert_eq!(display_path_with_home(&"/a".to_string(), &home), "~//a");
    assert_eq!(display_path_with_home(&"a/b/".to_string(), &home), "~/a/b");
    assert_eq!(display_path_with_home(&"/".to_string(), &home), "~//");
    assert_eq!(display_path_with_home(&String::new(), &home), "~");
}
