use gitenv::operation::{
    can_descend, decrement_depth, follows_links, source_access, DirectoryEntry,
    DirectoryEntryKind, OperationProgress, OperationReplies, OperationRequest,
    OperationSkipReason, SourceAccess, SourcePathRequirement, SourceReadError,
    SourceReadErrorKind, SourceShape,
};
use gitenv::status::{
    InspectionProgress, InspectionReplies, InspectionRequest, PathKind, PlanInspectionProgress,
};
use gitenv::{
    derive_operation_plan, inspect_copy_operation_status, inspect_operation_plan_status,
    inspect_symlink_operation_status, ActionMode, ConflictPolicy,
    CopyInspection, CopyInspectionState, FileOperation, IntentAction, IntentFileAction,
    IntentPlan, IntentSelectAction, IntentSource, OperationAction, OperationEntry,
    OperationInspectionOutcome, OperationInspectionReport, OperationPlan, OperationPlanningIssue,
    PlannedOperationAction, ProgramError, ResolvedOptions, SelectionType, SourceAvailability,
    SymlinkInspection, SymlinkInspectionState,
};
use std::collections::BTreeMap;

const HOME: &str = "/home/tester";

/// A directory tree: each directory's children, by path.
type Tree = BTreeMap<String, Vec<(String, bool)>>;

fn tree(directories: &[(&str, &[(&str, bool)])]) -> Tree {
    directories
        .iter()
        .map(|(path, children)| {
            (
                path.to_string(),
                children.iter().map(|(name, is_dir)| (name.to_string(), *is_dir)).collect(),
            )
        })
        .collect()
}

/// The path with `.` components and repeated separators left out, as the
/// file system resolves it.
fn normalize(path: &str) -> String {
    let parts: Vec<&str> = path.split('/').filter(|p| !p.is_empty() && *p != ".").collect();
    format!("/{}", parts.join("/"))
}

/// Plans operations against the tree, recording the questions asked.
fn plan_in(
    intent_plan: &IntentPlan,
    tree: &Tree,
    excludes: &[&str],
    target_directory_exists: &dyn Fn(&str) -> bool,
) -> (OperationPlan, Vec<OperationRequest>) {
    let excludes: Vec<String> = excludes.iter().map(|e| e.to_string()).collect();
    let mut replies = OperationReplies::new();
    let mut asked = Vec::new();
    loop {
        match derive_operation_plan(intent_plan, &HOME.to_string(), &excludes, &replies) {
            OperationProgress::Finished(result) => {
                return (result.expect("operation planning records issues instead of failing"), asked)
            }
            OperationProgress::Needs(request) => {
                match &request {
                    OperationRequest::SourceReadable { path, requirement } => {
                        let path = &normalize(path);
                        let is_dir = tree.contains_key(path);
                        let is_file = tree.values().any(|children| {
                            children.iter().any(|(name, dir)| !dir && path.ends_with(&format!("/{name}")))
                        });
                        let readable = match requirement {
                            SourcePathRequirement::Directory => is_dir,
                            SourcePathRequirement::File => is_file,
                            SourcePathRequirement::Symlink => is_dir || is_file,
                        };
                        replies.readability.push(if readable {
                            Ok(())
                        } else {
                            Err(SourceReadError {
                                path: path.to_string(),
                                kind: SourceReadErrorKind::Missing,
                                message: "No such file or directory (os error 2)".to_string(),
                            })
                        });
                    }
                    OperationRequest::DirectoryListing(path) => {
                        let children = tree.get(&normalize(path)).cloned().unwrap_or_default();
                        replies.listings.push(Ok(children
                            .into_iter()
                            .map(|(name, is_dir)| DirectoryEntry {
                                name,
                                kind: if is_dir { DirectoryEntryKind::Directory } else { DirectoryEntryKind::File },
                            })
                            .collect()));
                    }
                    OperationRequest::TargetDirectoryExists(path) => {
                        replies.target_directories.push(target_directory_exists(&normalize(path)))
                    }
                }
                asked.push(request);
            }
        }
    }
}

fn default_options() -> ResolvedOptions {
    ResolvedOptions {
        mode: ActionMode::Symlink,
        to: "~".to_string(),
        mkdir: true,
        conflict_policy: ConflictPolicy::Skip,
    }
}

fn make_intent_plan(sources: Vec<IntentSource>) -> IntentPlan {
    IntentPlan {
        repository: "/repo".to_string(),
        sources,
    }
}

fn make_intent_source(from: &str, actions: Vec<IntentAction>) -> IntentSource {
    IntentSource {
        from: from.to_string(),
        actions,
    }
}

fn make_select_action(
    selection_type: SelectionType,
    recursive: bool,
    existing_directories_only: bool,
    exclude: &[&str],
) -> IntentAction {
    IntentAction::Select(IntentSelectAction {
        selection_type,
        recursive,
        existing_directories_only,
        exclude: exclude.iter().map(|e| e.to_string()).collect(),
        options: default_options(),
    })
}

fn expected_symlink(source: &str, target: &str) -> OperationAction {
    OperationAction::Symlink(FileOperation {
        source: source.to_string(),
        target: target.to_string(),
        mkdir: true,
        conflict_policy: ConflictPolicy::Skip,
    })
}

fn expected_operation_plan(actions: Vec<OperationAction>) -> OperationPlan {
    OperationPlan {
        entries: actions
            .into_iter()
            .map(|action| {
                OperationEntry::Action(PlannedOperationAction {
                    action,
                    source_availability: SourceAvailability::Available,
                    skip_reason: None,
                })
            })
            .collect(),
    }
}

fn everywhere(_: &str) -> bool {
    true
}

#[test]
fn source_reader_double_can_return_file_ok_and_directory_error() {
    let repository = "/repo-root";
    let source_reader = |_: &str, requirement: SourcePathRequirement| match requirement {
        SourcePathRequirement::Directory => Err(SourceReadError {
            path: format!("{repository}/configs"),
            kind: SourceReadErrorKind::Missing,
            message: "missing".to_string(),
        }),
        _ => Ok(()),
    };

    assert!(source_reader("/repo-root/configs/.zshrc", SourcePathRequirement::File).is_ok());
    assert!(source_reader("/repo-root/configs", SourcePathRequirement::Directory).is_err());
}

#[test]
fn source_reader_double_can_return_directory_ok_and_file_error() {
    let source_reader = |path: &str, requirement: SourcePathRequirement| match requirement {
        SourcePathRequirement::File => Err(SourceReadError {
            path: path.to_string(),
            kind: SourceReadErrorKind::PermissionDenied,
            message: "denied".to_string(),
        }),
        _ => Ok(()),
    };

    assert!(source_reader("/repo-root", SourcePathRequirement::Directory).is_ok());
    assert!(source_reader("/repo-root/.zshrc", SourcePathRequirement::File).is_err());
}

#[test]
fn decrement_depth_saturates_at_zero() {
    assert_eq!(decrement_depth(None), None);
    assert_eq!(decrement_depth(Some(2)), Some(1));
    assert_eq!(decrement_depth(Some(0)), Some(0));
}

#[test]
fn can_descend_respects_remaining_depth() {
    assert!(can_descend(None));
    assert!(can_descend(Some(1)));
    assert!(!can_descend(Some(0)));
}

#[test]
fn expand_dot_selection_entries_into_concrete_file_actions() {
    let files = tree(&[("/repo", &[(".zshrc", false), (".gitconfig", false), ("notes.txt", false), (".ssh", true)])]);
    let intent_plan = make_intent_plan(vec![make_intent_source(
        ".",
        vec![make_select_action(SelectionType::Dot, false, false, &[".gitconfig"])],
    )]);

    let (plan, _) = plan_in(&intent_plan, &files, &[], &everywhere);

    assert_eq!(
        plan,
        expected_operation_plan(vec![expected_symlink("/repo/./.zshrc", "/home/tester/.zshrc")])
    );
}

#[test]
fn keep_intent_file_actions_as_concrete_file_actions() {
    let files = tree(&[("/repo/configs", &[(".zshrc", false)])]);
    let intent_plan = make_intent_plan(vec![make_intent_source(
        "configs",
        vec![IntentAction::File(IntentFileAction {
            file: ".zshrc".to_string(),
            as_name: ".zshrc".to_string(),
            options: default_options(),
        })],
    )]);

    let (plan, asked) = plan_in(&intent_plan, &files, &[], &everywhere);

    assert_eq!(
        plan,
        expected_operation_plan(vec![expected_symlink("/repo/configs/.zshrc", "/home/tester/.zshrc")])
    );
    assert_eq!(
        asked,
        vec![OperationRequest::SourceReadable {
            path: "/repo/configs/.zshrc".to_string(),
            requirement: SourcePathRequirement::File,
        }]
    );
}

#[test]
fn list_selected_files_in_name_order_depth_first() {
    let files = tree(&[
        ("/repo", &[("top.txt", false), ("nested", true)]),
        ("/repo/nested", &[("inner.txt", false), ("deeper", true)]),
        ("/repo/nested/deeper", &[("deep.txt", false)]),
    ]);
    let intent_plan = make_intent_plan(vec![make_intent_source(
        ".",
        vec![make_select_action(SelectionType::All, true, false, &[])],
    )]);

    let (plan, _) = plan_in(&intent_plan, &files, &[], &everywhere);

    assert_eq!(
        plan,
        expected_operation_plan(vec![
            expected_symlink("/repo/./nested/deeper/deep.txt", "/home/tester/nested/deeper/deep.txt"),
            expected_symlink("/repo/./nested/inner.txt", "/home/tester/nested/inner.txt"),
            expected_symlink("/repo/./top.txt", "/home/tester/top.txt"),
        ])
    );
}

#[test]
fn stay_at_the_top_level_of_a_selection_that_is_not_recursive() {
    let files = tree(&[
        ("/repo", &[("top.txt", false), ("nested", true)]),
        ("/repo/nested", &[("inner.txt", false)]),
    ]);
    let intent_plan = make_intent_plan(vec![make_intent_source(
        ".",
        vec![make_select_action(SelectionType::NonDot, false, false, &[])],
    )]);

    let (plan, asked) = plan_in(&intent_plan, &files, &[], &everywhere);

    assert_eq!(plan, expected_operation_plan(vec![expected_symlink("/repo/./top.txt", "/home/tester/top.txt")]));
    assert!(!asked.contains(&OperationRequest::DirectoryListing("/repo/./nested".to_string())));
}

#[test]
fn exclude_ds_store_entries_during_selector_expansion() {
    let files = tree(&[("/repo", &[(".DS_Store", false), (".zshrc", false)])]);
    let intent_plan = make_intent_plan(vec![make_intent_source(
        ".",
        vec![make_select_action(SelectionType::Dot, false, false, &[])],
    )]);

    let (plan, _) = plan_in(&intent_plan, &files, &["**/.DS_Store"], &everywhere);

    assert_eq!(plan, expected_operation_plan(vec![expected_symlink("/repo/./.zshrc", "/home/tester/.zshrc")]));
}

#[test]
fn exclude_nested_entries_matching_a_double_star_pattern() {
    let files = tree(&[
        ("/repo", &[("keep.txt", false), ("cache", true)]),
        ("/repo/cache", &[("tmp.log", false), ("keep.log", false)]),
    ]);
    let intent_plan = make_intent_plan(vec![make_intent_source(
        ".",
        vec![make_select_action(SelectionType::All, true, false, &["**/tmp.*"])],
    )]);

    let (plan, _) = plan_in(&intent_plan, &files, &[], &everywhere);

    assert_eq!(
        plan,
        expected_operation_plan(vec![
            expected_symlink("/repo/./cache/keep.log", "/home/tester/cache/keep.log"),
            expected_symlink("/repo/./keep.txt", "/home/tester/keep.txt"),
        ])
    );
}

#[test]
fn cannot_derive_operation_plan_when_a_source_directory_is_missing() {
    let intent_plan = make_intent_plan(vec![make_intent_source(
        "missing",
        vec![make_select_action(SelectionType::Dot, false, false, &[])],
    )]);

    let (plan, _) = plan_in(&intent_plan, &Tree::new(), &[], &everywhere);

    assert_eq!(
        plan,
        OperationPlan {
            entries: vec![OperationEntry::Issue(OperationPlanningIssue {
                path: "/repo/missing".to_string(),
                source_availability: SourceAvailability::Missing,
            })],
        }
    );
}

#[test]
fn skip_recursive_entries_whose_target_directory_is_missing() {
    let files = tree(&[
        ("/repo", &[("top.conf", false), ("nested", true)]),
        ("/repo/nested", &[("tool.conf", false)]),
    ]);
    let intent_plan = make_intent_plan(vec![make_intent_source(
        ".",
        vec![make_select_action(SelectionType::All, true, true, &[])],
    )]);
    let existing = |path: &str| path == "/home/tester/top.conf";

    let (plan, _) = plan_in(&intent_plan, &files, &[], &existing);

    assert_eq!(
        plan,
        OperationPlan {
            entries: vec![
                OperationEntry::Action(PlannedOperationAction {
                    action: expected_symlink("/repo/./nested/tool.conf", "/home/tester/nested/tool.conf"),
                    source_availability: SourceAvailability::Available,
                    skip_reason: Some(OperationSkipReason::MissingTargetDirectory),
                }),
                OperationEntry::Action(PlannedOperationAction {
                    action: expected_symlink("/repo/./top.conf", "/home/tester/top.conf"),
                    source_availability: SourceAvailability::Available,
                    skip_reason: None,
                }),
            ],
        }
    );
}

#[test]
fn record_an_unreadable_file_source_in_the_plan() {
    let intent_plan = make_intent_plan(vec![make_intent_source(
        ".",
        vec![IntentAction::File(IntentFileAction {
            file: "absent.conf".to_string(),
            as_name: "absent.conf".to_string(),
            options: ResolvedOptions {
                mode: ActionMode::Copy,
                to: "~/.config".to_string(),
                mkdir: false,
                conflict_policy: ConflictPolicy::Overwrite,
            },
        })],
    )]);

    let (plan, _) = plan_in(&intent_plan, &Tree::new(), &[], &everywhere);

    assert_eq!(
        plan,
        OperationPlan {
            entries: vec![OperationEntry::Action(PlannedOperationAction {
                action: OperationAction::Copy(FileOperation {
                    source: "/repo/./absent.conf".to_string(),
                    target: "/home/tester/.config/absent.conf".to_string(),
                    mkdir: false,
                    conflict_policy: ConflictPolicy::Overwrite,
                }),
                source_availability: SourceAvailability::Missing,
                skip_reason: None,
            })],
        }
    );
}

// Inspection of a whole plan.

#[test]
fn inspect_both_symlink_and_copy_operations_in_a_single_operation_plan() {
    let make_operation = |source: &str, target: &str| FileOperation {
        source: source.to_string(),
        target: target.to_string(),
        mkdir: false,
        conflict_policy: ConflictPolicy::Skip,
    };
    let operation_plan = expected_operation_plan(vec![
        OperationAction::Symlink(make_operation("/repo/.gitconfig", "/home/.gitconfig")),
        OperationAction::Copy(make_operation("/repo/.zshrc", "/home/.zshrc")),
    ]);

    let mut replies = InspectionReplies::new();
    let report = loop {
        match inspect_operation_plan_status(&operation_plan, &replies) {
            PlanInspectionProgress::Finished(result) => break result,
            PlanInspectionProgress::Needs(InspectionRequest::PathKind(_)) => {
                replies.kinds.push(Ok(PathKind::Missing))
            }
            PlanInspectionProgress::Needs(other) => panic!("unexpected question {other:?}"),
        }
    }
    .expect("status inspection should work");

    assert_eq!(
        report,
        OperationInspectionReport {
            outcomes: vec![
                OperationInspectionOutcome::Symlink(SymlinkInspection {
                    source: "/repo/.gitconfig".to_string(),
                    target: "/home/.gitconfig".to_string(),
                    state: SymlinkInspectionState::Missing,
                }),
                OperationInspectionOutcome::Copy(CopyInspection {
                    source: "/repo/.zshrc".to_string(),
                    target: "/home/.zshrc".to_string(),
                    state: CopyInspectionState::Missing,
                }),
            ],
        }
    );
}

#[test]
fn propagate_metadata_errors_while_inspecting_a_plan() {
    let operation_plan = expected_operation_plan(vec![expected_symlink("/repo/./.zshrc", "/home/.zshrc")]);
    let mut replies = InspectionReplies::new();
    replies.kinds.push(Err(ProgramError::PathInspectionFailed {
        path: "/home/.zshrc".to_string(),
        message: "permission denied".to_string(),
    }));

    assert_eq!(
        inspect_operation_plan_status(&operation_plan, &replies),
        PlanInspectionProgress::Finished(Err(ProgramError::PathInspectionFailed {
            path: "/home/.zshrc".to_string(),
            message: "permission denied".to_string(),
        }))
    );
}

#[test]
fn only_symlink_sources_are_looked_at_through_the_link() {
    assert!(follows_links(SourcePathRequirement::Symlink));
    assert!(!follows_links(SourcePathRequirement::File));
    assert!(!follows_links(SourcePathRequirement::Directory));
}

fn refusal(message: &str) -> Result<SourceAccess, SourceReadError> {
    Err(SourceReadError {
        path: "/repo/item".to_string(),
        kind: SourceReadErrorKind::UnexpectedIo,
        message: message.to_string(),
    })
}

#[test]
fn open_file_sources_and_refuse_other_shapes() {
    let path = "/repo/item".to_string();
    let access = |shape| source_access(SourcePathRequirement::File, shape, &path);
    assert_eq!(access(SourceShape::File), Ok(SourceAccess::OpenFile));
    assert_eq!(access(SourceShape::Symlink), Ok(SourceAccess::OpenFile));
    assert_eq!(access(SourceShape::Directory), refusal("not a readable file"));
    assert_eq!(access(SourceShape::Other), refusal("not a readable file"));
}

#[test]
fn read_directory_sources_and_refuse_other_shapes() {
    let path = "/repo/item".to_string();
    let access = |shape| source_access(SourcePathRequirement::Directory, shape, &path);
    assert_eq!(access(SourceShape::Directory), Ok(SourceAccess::ReadDirectory));
    assert_eq!(access(SourceShape::File), refusal("not a readable directory"));
    assert_eq!(access(SourceShape::Symlink), refusal("not a readable directory"));
    assert_eq!(access(SourceShape::Other), refusal("not a readable directory"));
}

#[test]
fn read_symlink_sources_as_whatever_they_point_at() {
    let path = "/repo/item".to_string();
    let access = |shape| source_access(SourcePathRequirement::Symlink, shape, &path);
    assert_eq!(access(SourceShape::Directory), Ok(SourceAccess::ReadDirectory));
    assert_eq!(access(SourceShape::File), Ok(SourceAccess::OpenFile));
    assert_eq!(access(SourceShape::Other), refusal("not a readable symlink source"));
}

// Planning against answers given case by case.

fn plan_with(
    intent_plan: &IntentPlan,
    home: &str,
    readable: &dyn Fn(&str, SourcePathRequirement) -> Result<(), SourceReadError>,
    listing: &dyn Fn(&str) -> Result<Vec<DirectoryEntry>, SourceReadError>,
) -> OperationPlan {
    let mut replies = OperationReplies::new();
    loop {
        match derive_operation_plan(intent_plan, &home.to_string(), &Vec::new(), &replies) {
            OperationProgress::Finished(result) => return result.expect("operation planning records issues instead of failing"),
            OperationProgress::Needs(OperationRequest::SourceReadable { path, requirement }) => {
                replies.readability.push(readable(&path, requirement))
            }
            OperationProgress::Needs(OperationRequest::DirectoryListing(path)) => replies.listings.push(listing(&path)),
            OperationProgress::Needs(OperationRequest::TargetDirectoryExists(_)) => replies.target_directories.push(true),
        }
    }
}

fn all_readable(_: &str, _: SourcePathRequirement) -> Result<(), SourceReadError> {
    Ok(())
}

fn no_listing(path: &str) -> Result<Vec<DirectoryEntry>, SourceReadError> {
    Err(SourceReadError {
        path: path.to_string(),
        kind: SourceReadErrorKind::Missing,
        message: "No such file or directory (os error 2)".to_string(),
    })
}

fn make_file_action(file: &str, as_name: &str, options: ResolvedOptions) -> IntentAction {
    IntentAction::File(IntentFileAction {
        file: file.to_string(),
        as_name: as_name.to_string(),
        options,
    })
}

#[test]
fn preserve_a_missing_directory_listing_as_a_planning_issue() {
    let intent_plan = IntentPlan {
        repository: "/tmp/repository".to_string(),
        sources: vec![make_intent_source("configs", vec![make_select_action(SelectionType::Dot, false, false, &[])])],
    };

    let operation_plan = plan_with(&intent_plan, "/tmp/home", &all_readable, &no_listing);

    assert_eq!(
        operation_plan,
        OperationPlan {
            entries: vec![OperationEntry::Issue(OperationPlanningIssue {
                path: "/tmp/repository/configs".to_string(),
                source_availability: SourceAvailability::Missing,
            })],
        }
    );
}

#[test]
fn preserve_a_missing_source_root_as_a_planning_issue() {
    let intent_plan = IntentPlan {
        repository: "/repo-root".to_string(),
        sources: vec![make_intent_source("configs", vec![make_select_action(SelectionType::Dot, false, false, &[])])],
    };
    let missing = |path: &str, _: SourcePathRequirement| {
        Err(SourceReadError {
            path: path.to_string(),
            kind: SourceReadErrorKind::Missing,
            message: "missing".to_string(),
        })
    };

    let operation_plan = plan_with(&intent_plan, "/tmp/home", &missing, &no_listing);

    assert_eq!(
        operation_plan,
        OperationPlan {
            entries: vec![OperationEntry::Issue(OperationPlanningIssue {
                path: "/repo-root/configs".to_string(),
                source_availability: SourceAvailability::Missing,
            })],
        }
    );

    let available_plan = plan_with(
        &IntentPlan {
            repository: "/repo-root".to_string(),
            sources: vec![make_intent_source("configs", vec![make_file_action(".zshrc", ".zshrc", default_options())])],
        },
        "/tmp/home",
        &all_readable,
        &no_listing,
    );

    assert_eq!(
        available_plan,
        expected_operation_plan(vec![expected_symlink("/repo-root/configs/.zshrc", "/tmp/home/.zshrc")])
    );
}

#[test]
fn resolve_relative_targets_against_the_home_directory() {
    let mut options = default_options();
    options.to = "links".to_string();
    let intent_plan = IntentPlan {
        repository: "/repo-root".to_string(),
        sources: vec![make_intent_source("configs", vec![make_file_action(".zshrc", "shell/zshrc", options)])],
    };

    let operation_plan = plan_with(&intent_plan, "/tmp/home", &all_readable, &no_listing);

    assert_eq!(
        operation_plan,
        expected_operation_plan(vec![expected_symlink("/repo-root/configs/.zshrc", "/tmp/home/links/shell/zshrc")])
    );
}

#[test]
fn resolve_home_prefixed_sources_and_targets_for_copy_operations() {
    let mut options = default_options();
    options.mode = ActionMode::Copy;
    options.to = "~/copies".to_string();
    let intent_plan = IntentPlan {
        repository: "/repo-root".to_string(),
        sources: vec![make_intent_source("~/private", vec![make_file_action(".zshrc", ".zshrc", options)])],
    };

    let operation_plan = plan_with(&intent_plan, "/tmp/home", &all_readable, &no_listing);

    assert_eq!(
        operation_plan,
        expected_operation_plan(vec![OperationAction::Copy(FileOperation {
            source: "/tmp/home/private/.zshrc".to_string(),
            target: "/tmp/home/copies/.zshrc".to_string(),
            mkdir: true,
            conflict_policy: ConflictPolicy::Skip,
        })])
    );
}

#[test]
fn list_directory_entries_returns_an_empty_list_for_an_empty_directory() {
    let intent_plan = make_intent_plan(vec![make_intent_source(
        "configs",
        vec![make_select_action(SelectionType::All, true, false, &[])],
    )]);

    let operation_plan = plan_with(&intent_plan, HOME, &all_readable, &|_| Ok(vec![]));

    assert!(operation_plan.entries.is_empty());
}

// Inspection of one operation.

fn inspected_operation(source: &str, target: &str) -> FileOperation {
    FileOperation {
        source: source.to_string(),
        target: target.to_string(),
        mkdir: true,
        conflict_policy: ConflictPolicy::Skip,
    }
}

#[test]
fn report_missing_when_the_symlink_target_is_absent() {
    let operation = inspected_operation("/tmp/inspect/source.txt", "/tmp/inspect/missing.txt");
    let mut replies = InspectionReplies::new();
    replies.kinds.push(Ok(PathKind::Missing));

    assert_eq!(
        inspect_symlink_operation_status(&operation, &replies),
        InspectionProgress::Finished(Ok(SymlinkInspection {
            source: "/tmp/inspect/source.txt".to_string(),
            target: "/tmp/inspect/missing.txt".to_string(),
            state: SymlinkInspectionState::Missing,
        }))
    );
}

#[test]
fn propagate_metadata_errors_while_inspecting_symlink_status() {
    let operation = inspected_operation("/tmp/inspect/source.txt", "/tmp/inspect/target.txt");
    let mut replies = InspectionReplies::new();
    replies.kinds.push(Err(ProgramError::PathInspectionFailed {
        path: "/tmp/inspect/target.txt".to_string(),
        message: "permission denied".to_string(),
    }));

    assert_eq!(
        inspect_symlink_operation_status(&operation, &replies),
        InspectionProgress::Finished(Err(ProgramError::PathInspectionFailed {
            path: "/tmp/inspect/target.txt".to_string(),
            message: "permission denied".to_string(),
        }))
    );
}

#[test]
fn propagate_readlink_errors_while_inspecting_symlink_status() {
    let operation = inspected_operation("/tmp/inspect/source.txt", "/tmp/inspect/target.txt");
    let mut replies = InspectionReplies::new();
    replies.kinds.push(Ok(PathKind::Symlink));
    replies.symlink_targets.push(Err(ProgramError::SymlinkTargetReadFailed {
        path: "/tmp/inspect/target.txt".to_string(),
        message: "broken link".to_string(),
    }));

    assert_eq!(
        inspect_symlink_operation_status(&operation, &replies),
        InspectionProgress::Finished(Err(ProgramError::SymlinkTargetReadFailed {
            path: "/tmp/inspect/target.txt".to_string(),
            message: "broken link".to_string(),
        }))
    );
}

#[test]
fn propagate_copy_read_errors_while_inspecting_copy_status() {
    let operation = inspected_operation("/tmp/inspect/source.txt", "/tmp/inspect/target.txt");
    let mut replies = InspectionReplies::new();
    replies.kinds.push(Ok(PathKind::File));
    replies.digests.push(Err(ProgramError::PathInspectionFailed {
        path: "/tmp/inspect/source.txt".to_string(),
        message: "permission denied".to_string(),
    }));

    assert_eq!(
        inspect_copy_operation_status(&operation, &replies),
        InspectionProgress::Finished(Err(ProgramError::PathInspectionFailed {
            path: "/tmp/inspect/source.txt".to_string(),
            message: "permission denied".to_string(),
        }))
    );
}
