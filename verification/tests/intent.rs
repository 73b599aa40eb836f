use gitenv::intent::{IntentProgress, IntentReplies, IntentRequest};
use gitenv::{
    derive_intent_plan, ActionMode, Config, ConfigItem, ConflictPolicy, Defaults, FileConfig,
    Guard, Include, IntentAction, IntentFileAction, IntentPlan, IntentSelectAction, IntentSource,
    LoadedConfig, ProgramError, ResolvedOptions, SelectConfig, SelectionType, Source, SourceRoot,
};
use std::collections::BTreeSet;
use std::sync::Mutex;

const TEST_HOME: &str = "/home/tester";

/// Runs intent planning to the end, answering each question with the given
/// functions, and records the questions asked.
fn plan_with<E, D, C>(
    loaded: &LoadedConfig,
    env: E,
    dirs: D,
    read: C,
) -> (Result<IntentPlan, ProgramError>, Vec<IntentRequest>)
where
    E: Fn(&str) -> Option<String>,
    D: Fn(&str) -> bool,
    C: Fn(&str) -> Result<LoadedConfig, ProgramError>,
{
    let home = TEST_HOME.to_string();
    let mut replies = IntentReplies::new();
    let mut asked = Vec::new();
    loop {
        match derive_intent_plan(loaded, &home, &replies) {
            IntentProgress::Finished(result) => return (result, asked),
            IntentProgress::Needs(request) => {
                match &request {
                    IntentRequest::EnvironmentVariable(name) => replies.environment.push(env(name)),
                    IntentRequest::DirectoryProbe(path) => replies.directories.push(dirs(path)),
                    IntentRequest::ConfigFile(path) => replies.configs.push(read(path)),
                }
                asked.push(request);
            }
        }
    }
}

fn plan(
    loaded: &LoadedConfig,
    env: impl Fn(&str) -> Option<String>,
    dirs: impl Fn(&str) -> bool,
    read: impl Fn(&str) -> Result<LoadedConfig, ProgramError>,
) -> Result<IntentPlan, ProgramError> {
    plan_with(loaded, env, dirs, read).0
}

fn no_env_vars(_: &str) -> Option<String> {
    None
}

fn no_directories(_: &str) -> bool {
    false
}

fn reject_config_read(_: &str) -> Result<LoadedConfig, ProgramError> {
    Err(ProgramError::InvalidConfiguration {
        message: "includes not tested here".to_string(),
    })
}

fn make_config(sources: Vec<Source>) -> Config {
    Config {
        version: 1,
        repository: "~/projects/env".to_string(),
        defaults: Defaults::default(),
        sources,
        includes: vec![],
    }
}

fn make_source(from: SourceRoot, configs: Vec<ConfigItem>) -> Source {
    Source {
        from,
        to: None,
        guard: None,
        configs,
    }
}

fn file_item(file: &str) -> FileConfig {
    FileConfig {
        file: file.to_string(),
        as_name: None,
        mode: None,
        to: None,
        mkdir: None,
        overwrite: None,
        backup_on_overwrite: None,
    }
}

fn make_file_config_item(file: &str) -> ConfigItem {
    ConfigItem::File(file_item(file))
}

fn select_item(selection_type: SelectionType, recursive: bool, exclude: &[&str]) -> SelectConfig {
    SelectConfig {
        selection_type,
        recursive,
        existing_directories_only: false,
        exclude: exclude.iter().map(|e| e.to_string()).collect(),
        mode: None,
        to: None,
        mkdir: None,
        overwrite: None,
        backup_on_overwrite: None,
    }
}

fn options(mode: ActionMode, to: &str, mkdir: bool, conflict_policy: ConflictPolicy) -> ResolvedOptions {
    ResolvedOptions {
        mode,
        to: to.to_string(),
        mkdir,
        conflict_policy,
    }
}

fn file_action(file: &str, as_name: &str, options: ResolvedOptions) -> IntentAction {
    IntentAction::File(IntentFileAction {
        file: file.to_string(),
        as_name: as_name.to_string(),
        options,
    })
}

fn select_action(
    selection_type: SelectionType,
    recursive: bool,
    exclude: &[&str],
    options: ResolvedOptions,
) -> IntentAction {
    IntentAction::Select(IntentSelectAction {
        selection_type,
        recursive,
        existing_directories_only: false,
        exclude: exclude.iter().map(|e| e.to_string()).collect(),
        options,
    })
}

/// Minimal planned file action with symlink/skip defaults pointing to `~`.
fn expected_file_action(file: &str) -> IntentAction {
    file_action(file, file, options(ActionMode::Symlink, "~", true, ConflictPolicy::Skip))
}

fn expected_plan(sources: Vec<IntentSource>) -> IntentPlan {
    IntentPlan {
        repository: "~/projects/env".to_string(),
        sources,
    }
}

fn intent_source(from: &str, actions: Vec<IntentAction>) -> IntentSource {
    IntentSource {
        from: from.to_string(),
        actions,
    }
}

fn loaded_config_for_test(config: Config, path: &str) -> LoadedConfig {
    LoadedConfig {
        path: path.to_string(),
        config,
    }
}

fn root_loaded_config(config: &Config) -> LoadedConfig {
    loaded_config_for_test(config.clone(), "/intent-tests/root.yml")
}

fn loaded_config_for_path(config: &Config, path: Option<&str>) -> LoadedConfig {
    loaded_config_for_test(config.clone(), path.unwrap_or("/intent-tests/root.yml"))
}

fn read_failed(path: &str) -> Result<LoadedConfig, ProgramError> {
    Err(ProgramError::ConfigurationReadFailed {
        path: path.to_string(),
        message: "not found".to_string(),
    })
}

#[test]
fn reject_config_reader_reports_invalid_configuration() {
    let error = reject_config_read("/tmp/unused.yml")
        .expect_err("reject config reader should always fail");

    assert_eq!(
        error,
        ProgramError::InvalidConfiguration {
            message: "includes not tested here".to_string(),
        }
    );
}

#[test]
fn derive_a_minimal_intent_plan_with_the_intent_entrypoint() {
    let config = make_config(vec![make_source(
        SourceRoot::Path(".".to_string()),
        vec![make_file_config_item(".zshrc")],
    )]);
    let plan = plan(&root_loaded_config(&config), no_env_vars, no_directories, reject_config_read)
        .expect("config should produce an intent plan");

    assert_eq!(
        plan,
        expected_plan(vec![intent_source(".", vec![expected_file_action(".zshrc")])])
    );
}

#[test]
fn derive_a_deterministic_intent_plan_from_a_config() {
    let config = Config {
        version: 1,
        repository: "~/projects/env".to_string(),
        defaults: Defaults {
            mode: ActionMode::Copy,
            to: "~/dest".to_string(),
            mkdir: false,
            overwrite: true,
            backup_on_overwrite: false,
        },
        includes: vec![],
        sources: vec![Source {
            from: SourceRoot::Path(".".to_string()),
            to: None,
            guard: None,
            configs: vec![
                make_file_config_item(".zshrc"),
                ConfigItem::File(FileConfig {
                    as_name: Some(".tmux.conf".to_string()),
                    ..file_item(".tmux")
                }),
                ConfigItem::Select(select_item(SelectionType::Dot, false, &[".git"])),
            ],
        }],
    };

    let plan = plan(&root_loaded_config(&config), no_env_vars, no_directories, reject_config_read)
        .expect("config should produce an intent plan");

    let copy = || options(ActionMode::Copy, "~/dest", false, ConflictPolicy::Overwrite);
    let expected = expected_plan(vec![intent_source(
        ".",
        vec![
            file_action(".zshrc", ".zshrc", copy()),
            file_action(".tmux", ".tmux.conf", copy()),
            select_action(SelectionType::Dot, false, &[".git"], copy()),
        ],
    )]);

    assert_eq!(plan, expected);
}

#[test]
fn derive_intent_plan_preserves_non_dot_selection_type() {
    let config = Config {
        version: 1,
        repository: "~/projects/env".to_string(),
        defaults: Defaults {
            mode: ActionMode::Copy,
            to: "~/dest".to_string(),
            mkdir: false,
            overwrite: true,
            backup_on_overwrite: false,
        },
        includes: vec![],
        sources: vec![make_source(
            SourceRoot::Path(".".to_string()),
            vec![ConfigItem::Select(select_item(SelectionType::NonDot, false, &["Makefile"]))],
        )],
    };

    let plan = plan(&root_loaded_config(&config), no_env_vars, no_directories, reject_config_read)
        .expect("config should produce an intent plan");

    assert_eq!(
        plan,
        expected_plan(vec![intent_source(
            ".",
            vec![select_action(
                SelectionType::NonDot,
                false,
                &["Makefile"],
                options(ActionMode::Copy, "~/dest", false, ConflictPolicy::Overwrite),
            )],
        )])
    );
}

#[test]
fn derive_intent_plan_preserves_all_selection_type() {
    let config = Config {
        version: 1,
        repository: "~/projects/env".to_string(),
        defaults: Defaults {
            mode: ActionMode::Symlink,
            to: "~".to_string(),
            mkdir: true,
            overwrite: false,
            backup_on_overwrite: false,
        },
        includes: vec![],
        sources: vec![make_source(
            SourceRoot::Path("config".to_string()),
            vec![ConfigItem::Select(select_item(SelectionType::All, false, &[".backup", ".tmp"]))],
        )],
    };

    let plan = plan(&root_loaded_config(&config), no_env_vars, no_directories, reject_config_read)
        .expect("config should produce an intent plan");

    assert_eq!(
        plan,
        expected_plan(vec![intent_source(
            "config",
            vec![select_action(
                SelectionType::All,
                false,
                &[".backup", ".tmp"],
                options(ActionMode::Symlink, "~", true, ConflictPolicy::Skip),
            )],
        )])
    );
}

#[test]
fn propagate_true_recursive_select_setting_to_intent_actions() {
    let config = make_config(vec![make_source(
        SourceRoot::Path(".".to_string()),
        vec![ConfigItem::Select(select_item(SelectionType::Dot, true, &[".git"]))],
    )]);

    let plan = plan(&root_loaded_config(&config), no_env_vars, no_directories, reject_config_read)
        .expect("planning should propagate recursive select settings");

    assert_eq!(
        plan,
        expected_plan(vec![intent_source(
            ".",
            vec![select_action(
                SelectionType::Dot,
                true,
                &[".git"],
                options(ActionMode::Symlink, "~", true, ConflictPolicy::Skip),
            )],
        )])
    );
}

#[test]
fn resolve_environment_backed_sources_during_planning() {
    let config = Config {
        version: 1,
        repository: "~/projects/env".to_string(),
        defaults: Defaults {
            mode: ActionMode::Copy,
            to: "~/.config".to_string(),
            mkdir: false,
            overwrite: true,
            backup_on_overwrite: false,
        },
        includes: vec![],
        sources: vec![make_source(
            SourceRoot::Environment {
                env: "PRIVATE_ENV_DIR".to_string(),
                optional: true,
            },
            vec![make_file_config_item(".secrets")],
        )],
    };
    let plan = plan(
        &root_loaded_config(&config),
        |name: &str| {
            assert_eq!(name, "PRIVATE_ENV_DIR");
            Some("~/projects/private-env".to_string())
        },
        no_directories,
        reject_config_read,
    )
    .expect("planning should resolve the environment-backed source");

    assert_eq!(
        plan,
        expected_plan(vec![intent_source(
            "~/projects/private-env",
            vec![file_action(
                ".secrets",
                ".secrets",
                options(ActionMode::Copy, "~/.config", false, ConflictPolicy::Overwrite),
            )],
        )])
    );
}

#[test]
fn plan_explicit_path_source_roots_as_literal_paths() {
    let config = make_config(vec![make_source(
        SourceRoot::ExplicitPath {
            path: "$PRIVATE_ENV_DIR".to_string(),
        },
        vec![make_file_config_item(".zshrc")],
    )]);

    let (plan, asked) = plan_with(&root_loaded_config(&config), no_env_vars, no_directories, reject_config_read);
    let plan = plan.expect("planning should keep explicit path source roots as-is");

    assert_eq!(
        plan,
        expected_plan(vec![intent_source("$PRIVATE_ENV_DIR", vec![expected_file_action(".zshrc")])])
    );
    assert!(asked.is_empty());
}

#[test]
fn collapse_backup_preference_when_overwrite_is_disabled_in_planning() {
    let config = Config {
        defaults: Defaults {
            mode: ActionMode::Symlink,
            to: "~".to_string(),
            mkdir: true,
            overwrite: false,
            backup_on_overwrite: true,
        },
        ..make_config(vec![make_source(
            SourceRoot::Path(".".to_string()),
            vec![make_file_config_item(".zshrc")],
        )])
    };

    let plan = plan(&root_loaded_config(&config), no_env_vars, no_directories, reject_config_read)
        .expect("planning should collapse overwrite-disabled defaults to skip");

    assert_eq!(
        plan,
        expected_plan(vec![intent_source(
            ".",
            vec![file_action(
                ".zshrc",
                ".zshrc",
                options(ActionMode::Symlink, "~", true, ConflictPolicy::Skip),
            )],
        )])
    );
}

#[test]
fn reject_missing_environment_variables_before_planning() {
    let config = make_config(vec![
        make_source(
            SourceRoot::Environment {
                env: "PRIVATE_ENV_DIR".to_string(),
                optional: false,
            },
            vec![make_file_config_item(".zshrc")],
        ),
        make_source(
            SourceRoot::Environment {
                env: "SSH_KEY_DIR".to_string(),
                optional: false,
            },
            vec![make_file_config_item(".ssh_config")],
        ),
    ]);

    let error = plan(&root_loaded_config(&config), no_env_vars, no_directories, reject_config_read)
        .expect_err("planning should fail when environment variables are missing");

    assert_eq!(
        error,
        ProgramError::MissingEnvironment {
            vars: vec!["PRIVATE_ENV_DIR".to_string(), "SSH_KEY_DIR".to_string()],
        }
    );
}

#[test]
fn skip_optional_environment_backed_sources_when_the_variable_is_unset() {
    let config = make_config(vec![make_source(
        SourceRoot::Environment {
            env: "PRIVATE_ENV_DIR".to_string(),
            optional: true,
        },
        vec![make_file_config_item(".zshrc")],
    )]);

    let plan = plan(&root_loaded_config(&config), no_env_vars, no_directories, reject_config_read)
        .expect("planning should succeed when an optional environment-backed source is unset");

    assert_eq!(plan, expected_plan(vec![]));
}

#[test]
fn source_level_to_overrides_default_to_in_planned_actions() {
    let config = Config {
        defaults: Defaults {
            mode: ActionMode::Symlink,
            to: "~".to_string(),
            mkdir: true,
            overwrite: false,
            backup_on_overwrite: true,
        },
        ..make_config(vec![Source {
            from: SourceRoot::Environment {
                env: "SOURCE_DIR".to_string(),
                optional: false,
            },
            to: Some("~/Library/Application Support/Code/User".to_string()),
            guard: None,
            configs: vec![make_file_config_item("settings.json")],
        }])
    };

    let plan = plan(
        &root_loaded_config(&config),
        |name: &str| {
            assert_eq!(name, "SOURCE_DIR");
            Some("vscode".to_string())
        },
        no_directories,
        reject_config_read,
    )
    .expect("planning should succeed with a source-level to");

    assert_eq!(
        plan,
        expected_plan(vec![intent_source(
            "vscode",
            vec![file_action(
                "settings.json",
                "settings.json",
                options(
                    ActionMode::Symlink,
                    "~/Library/Application Support/Code/User",
                    true,
                    ConflictPolicy::Skip,
                ),
            )],
        )])
    );
}

fn guarded_vscode_config(to: &str) -> Config {
    make_config(vec![Source {
        from: SourceRoot::Path("vscode".to_string()),
        to: Some(to.to_string()),
        guard: Some(Guard::ToExists),
        configs: vec![make_file_config_item("settings.json")],
    }])
}

#[test]
fn include_a_source_when_to_exists_guard_is_satisfied() {
    let config = guarded_vscode_config("~/Library/Application Support/Code/User");
    let known_dirs = BTreeSet::from(["/home/tester/Library/Application Support/Code/User".to_string()]);

    let plan = plan(
        &root_loaded_config(&config),
        no_env_vars,
        |path: &str| known_dirs.contains(path),
        reject_config_read,
    )
    .expect("planning should succeed when the to_exists guard is satisfied");

    assert_eq!(
        plan,
        expected_plan(vec![intent_source(
            "vscode",
            vec![file_action(
                "settings.json",
                "settings.json",
                options(
                    ActionMode::Symlink,
                    "~/Library/Application Support/Code/User",
                    true,
                    ConflictPolicy::Skip,
                ),
            )],
        )])
    );
}

#[test]
fn exclude_a_source_when_to_exists_guard_is_not_satisfied() {
    let config = guarded_vscode_config("~/Library/Application Support/Code/User");

    let plan = plan(&root_loaded_config(&config), no_env_vars, no_directories, reject_config_read)
        .expect("planning should succeed when the to_exists guard is not satisfied");

    assert_eq!(plan, expected_plan(vec![]));
}

fn directory_guarded_config(from: &str, directory: &str, file: &str) -> Config {
    make_config(vec![Source {
        from: SourceRoot::Path(from.to_string()),
        to: None,
        guard: Some(Guard::DirectoryExists(directory.to_string())),
        configs: vec![make_file_config_item(file)],
    }])
}

#[test]
fn include_a_source_when_directory_exists_guard_is_satisfied() {
    let config = directory_guarded_config("macos", "/Applications", ".macos-defaults");
    let known_dirs = BTreeSet::from(["/Applications".to_string()]);

    let plan = plan(
        &root_loaded_config(&config),
        no_env_vars,
        |path: &str| known_dirs.contains(path),
        reject_config_read,
    )
    .expect("planning should succeed when the directory_exists guard is satisfied");

    assert_eq!(
        plan,
        expected_plan(vec![intent_source("macos", vec![expected_file_action(".macos-defaults")])])
    );
}

#[test]
fn exclude_a_source_when_directory_exists_guard_is_not_satisfied() {
    let config = directory_guarded_config("macos", "/Applications", ".macos-defaults");

    let plan = plan(&root_loaded_config(&config), no_env_vars, no_directories, reject_config_read)
        .expect("planning should succeed when the directory_exists guard is not satisfied");

    assert_eq!(plan, expected_plan(vec![]));
}

#[test]
fn exclude_a_source_when_real_directory_guard_points_to_a_regular_file() {
    let config = directory_guarded_config(".", "/project/Cargo.toml", ".zshrc");

    let plan = plan(&root_loaded_config(&config), no_env_vars, no_directories, reject_config_read)
        .expect("planning should skip sources when a real directory guard points to a file");

    assert_eq!(plan, expected_plan(vec![]));
}

#[test]
fn exclude_a_source_when_real_directory_guard_points_to_a_missing_path() {
    let config = directory_guarded_config(".", "/definitely-missing-gitenv-intent-probe", ".zshrc");

    let (plan, asked) =
        plan_with(&root_loaded_config(&config), no_env_vars, no_directories, reject_config_read);
    let plan = plan.expect("planning should skip sources when a real directory guard path is missing");

    assert_eq!(plan, expected_plan(vec![]));
    assert_eq!(
        asked,
        vec![IntentRequest::DirectoryProbe("/definitely-missing-gitenv-intent-probe".to_string())]
    );
}

#[test]
fn include_a_source_when_to_exists_guard_uses_a_home_relative_destination() {
    let config = guarded_vscode_config("~/AppData/Roaming/Code/User");
    let known_dirs = BTreeSet::from(["/home/tester/AppData/Roaming/Code/User".to_string()]);

    let plan = plan(
        &root_loaded_config(&config),
        no_env_vars,
        |path: &str| known_dirs.contains(path),
        reject_config_read,
    )
    .expect("planning should succeed when to_exists guard uses a home-relative destination");

    assert_eq!(
        plan,
        expected_plan(vec![intent_source(
            "vscode",
            vec![file_action(
                "settings.json",
                "settings.json",
                options(ActionMode::Symlink, "~/AppData/Roaming/Code/User", true, ConflictPolicy::Skip),
            )],
        )])
    );
}

#[test]
fn include_a_source_when_directory_exists_guard_uses_a_home_relative_path() {
    let config = directory_guarded_config("work", "~/work-active", ".workrc");
    let known_dirs = BTreeSet::from(["/home/tester/work-active".to_string()]);

    let plan = plan(
        &root_loaded_config(&config),
        no_env_vars,
        |path: &str| known_dirs.contains(path),
        reject_config_read,
    )
    .expect("planning should succeed when directory_exists guard uses a home-relative path");

    assert_eq!(
        plan,
        expected_plan(vec![intent_source("work", vec![expected_file_action(".workrc")])])
    );
}

#[test]
fn overwrite_with_backup_produces_backup_conflict_policy() {
    let config = Config {
        defaults: Defaults {
            mode: ActionMode::Symlink,
            to: "~".to_string(),
            mkdir: true,
            overwrite: true,
            backup_on_overwrite: true,
        },
        ..make_config(vec![make_source(
            SourceRoot::Path(".".to_string()),
            vec![make_file_config_item(".zshrc")],
        )])
    };

    let plan = plan(&root_loaded_config(&config), no_env_vars, no_directories, reject_config_read)
        .expect("planning should produce overwrite-with-backup conflict policy");

    assert_eq!(
        plan,
        expected_plan(vec![intent_source(
            ".",
            vec![file_action(
                ".zshrc",
                ".zshrc",
                options(ActionMode::Symlink, "~", true, ConflictPolicy::OverwriteWithBackup),
            )],
        )])
    );
}

fn config_with_includes(from: &str, file: &str, includes: Vec<Include>) -> Config {
    Config {
        includes,
        ..make_config(vec![make_source(
            SourceRoot::Path(from.to_string()),
            vec![make_file_config_item(file)],
        )])
    }
}

fn path_include(path: &str, optional: bool) -> Include {
    Include::Path {
        path: path.to_string(),
        optional,
    }
}

#[test]
fn include_declared_files_sources_after_own_sources() {
    let included = config_with_includes("inc", ".tmux.conf", vec![]);
    let root = config_with_includes(".", ".zshrc", vec![path_include("/inc/a.yml", false)]);

    let plan = plan(&loaded_config_for_path(&root, None), no_env_vars, no_directories, |path: &str| {
        assert_eq!(path, "/inc/a.yml");
        Ok(loaded_config_for_test(included.clone(), path))
    })
    .expect("planning should succeed with a valid include");

    assert_eq!(
        plan,
        expected_plan(vec![
            intent_source(".", vec![expected_file_action(".zshrc")]),
            intent_source("inc", vec![expected_file_action(".tmux.conf")]),
        ])
    );
}

#[test]
fn resolve_relative_include_paths_from_the_declaring_config_file() {
    let included = config_with_includes("inc", ".tmux.conf", vec![]);
    let root = config_with_includes("root_src", ".zshrc", vec![path_include("inc/a.yml", false)]);

    let plan = plan(
        &loaded_config_for_path(&root, Some("/configs/root.yml")),
        no_env_vars,
        no_directories,
        |path: &str| {
            assert_eq!(path, "/configs/inc/a.yml");
            Ok(loaded_config_for_test(included.clone(), path))
        },
    )
    .expect("planning should resolve a relative include from the declaring file path");

    assert_eq!(
        plan,
        expected_plan(vec![
            intent_source("root_src", vec![expected_file_action(".zshrc")]),
            intent_source("inc", vec![expected_file_action(".tmux.conf")]),
        ])
    );
}

#[test]
fn resolve_nested_relative_include_paths_from_each_declaring_file() {
    let c = config_with_includes("c_src", ".bashrc", vec![]);
    let a = config_with_includes("a_src", ".aliases", vec![path_include("nested/c.yml", false)]);
    let root = config_with_includes("root_src", ".zshrc", vec![path_include("inc/a.yml", false)]);

    let plan = plan(
        &loaded_config_for_path(&root, Some("/configs/root.yml")),
        no_env_vars,
        no_directories,
        |path: &str| {
            if path == "/configs/inc/a.yml" {
                Ok(loaded_config_for_test(a.clone(), path))
            } else {
                assert_eq!(path, "/configs/inc/nested/c.yml");
                Ok(loaded_config_for_test(c.clone(), path))
            }
        },
    )
    .expect("planning should resolve each nested relative include from its declaring file");

    assert_eq!(
        plan,
        expected_plan(vec![
            intent_source("root_src", vec![expected_file_action(".zshrc")]),
            intent_source("a_src", vec![expected_file_action(".aliases")]),
            intent_source("c_src", vec![expected_file_action(".bashrc")]),
        ])
    );
}

#[test]
fn resolve_home_relative_include_path_using_the_injected_home_directory() {
    let included = config_with_includes("shared", ".tmux.conf", vec![]);
    let root = config_with_includes("root_src", ".zshrc", vec![path_include("~/configs/shared.yml", false)]);

    let plan = plan(&loaded_config_for_path(&root, None), no_env_vars, no_directories, |path: &str| {
        assert_eq!(path, "/home/tester/configs/shared.yml");
        Ok(loaded_config_for_test(included.clone(), path))
    })
    .expect("planning should succeed when the include path uses a home-relative prefix");

    assert_eq!(
        plan,
        expected_plan(vec![
            intent_source("root_src", vec![expected_file_action(".zshrc")]),
            intent_source("shared", vec![expected_file_action(".tmux.conf")]),
        ])
    );
}

#[test]
fn include_a_source_when_to_exists_guard_uses_the_bare_tilde_default() {
    let config = make_config(vec![Source {
        from: SourceRoot::Path("src".to_string()),
        to: None,
        guard: Some(Guard::ToExists),
        configs: vec![make_file_config_item(".zshrc")],
    }]);

    let plan = plan(
        &root_loaded_config(&config),
        no_env_vars,
        |path: &str| path == "/home/tester",
        reject_config_read,
    )
    .expect("planning should succeed when to_exists guard uses the bare-tilde default destination");

    assert_eq!(
        plan,
        expected_plan(vec![intent_source("src", vec![expected_file_action(".zshrc")])])
    );
}

#[test]
fn include_sources_from_nested_includes_depth_first() {
    let c = config_with_includes("c_src", ".bashrc", vec![]);
    let a = config_with_includes("a_src", ".aliases", vec![path_include("/inc/c.yml", false)]);
    let root = config_with_includes("root_src", ".zshrc", vec![path_include("/inc/a.yml", false)]);

    let plan = plan(&loaded_config_for_path(&root, None), no_env_vars, no_directories, |path: &str| {
        if path == "/inc/a.yml" {
            Ok(loaded_config_for_test(a.clone(), path))
        } else {
            assert_eq!(path, "/inc/c.yml");
            Ok(loaded_config_for_test(c.clone(), path))
        }
    })
    .expect("planning should succeed with nested includes");

    assert_eq!(
        plan,
        expected_plan(vec![
            intent_source("root_src", vec![expected_file_action(".zshrc")]),
            intent_source("a_src", vec![expected_file_action(".aliases")]),
            intent_source("c_src", vec![expected_file_action(".bashrc")]),
        ])
    );
}

#[test]
fn skip_duplicate_includes_across_the_include_tree() {
    let shared = config_with_includes("shared_src", ".shared", vec![]);
    let a = config_with_includes("a_src", ".aliases", vec![path_include("/inc/shared.yml", false)]);
    let root = config_with_includes(
        "root_src",
        ".zshrc",
        vec![path_include("/inc/a.yml", false), path_include("/inc/shared.yml", false)],
    );
    let reads = Mutex::new(Vec::new());

    let plan = plan(&loaded_config_for_path(&root, None), no_env_vars, no_directories, |path: &str| {
        reads.lock().unwrap().push(path.to_string());
        if path == "/inc/a.yml" {
            Ok(loaded_config_for_test(a.clone(), path))
        } else {
            assert_eq!(path, "/inc/shared.yml");
            Ok(loaded_config_for_test(shared.clone(), path))
        }
    })
    .expect("planning should succeed and deduplicate shared includes");

    assert_eq!(
        plan,
        expected_plan(vec![
            intent_source("root_src", vec![expected_file_action(".zshrc")]),
            intent_source("a_src", vec![expected_file_action(".aliases")]),
            intent_source("shared_src", vec![expected_file_action(".shared")]),
        ])
    );
    assert_eq!(*reads.lock().unwrap(), vec!["/inc/a.yml".to_string(), "/inc/shared.yml".to_string()]);
}

#[test]
fn skip_optional_includes_when_file_is_missing() {
    let root = config_with_includes("root_src", ".zshrc", vec![path_include("/inc/missing.yml", true)]);

    let plan = plan(&loaded_config_for_path(&root, None), no_env_vars, no_directories, read_failed)
        .expect("planning should succeed when an optional include is missing");

    assert_eq!(
        plan,
        expected_plan(vec![intent_source("root_src", vec![expected_file_action(".zshrc")])])
    );
}

#[test]
fn reject_required_includes_that_cannot_be_found() {
    let root = config_with_includes(
        ".",
        ".zshrc",
        vec![path_include("/inc/missing_a.yml", false), path_include("/inc/missing_b.yml", false)],
    );

    let error = plan(&loaded_config_for_path(&root, None), no_env_vars, no_directories, read_failed)
        .expect_err("planning should fail when required includes are missing");

    assert_eq!(
        error,
        ProgramError::IncludeNotFound {
            paths: vec!["/inc/missing_a.yml".to_string(), "/inc/missing_b.yml".to_string()],
        }
    );
}

#[test]
fn reject_include_cycles() {
    let b = config_with_includes("b_src", ".b", vec![path_include("/inc/a.yml", false)]);
    let a = config_with_includes("a_src", ".a", vec![path_include("/inc/b.yml", false)]);
    let root = config_with_includes("root_src", ".zshrc", vec![path_include("/inc/a.yml", false)]);

    let error = plan(&loaded_config_for_path(&root, None), no_env_vars, no_directories, |path: &str| {
        if path == "/inc/a.yml" {
            Ok(loaded_config_for_test(a.clone(), path))
        } else {
            assert_eq!(path, "/inc/b.yml");
            Ok(loaded_config_for_test(b.clone(), path))
        }
    })
    .expect_err("planning should fail when an include cycle is detected");

    assert_eq!(
        error,
        ProgramError::IncludeCycle {
            cycle: vec![
                "/inc/a.yml".to_string(),
                "/inc/b.yml".to_string(),
                "/inc/a.yml".to_string(),
            ],
        }
    );
}

#[test]
fn reject_a_self_referencing_include_when_root_config_path_is_seeded() {
    let root = config_with_includes("root_src", ".zshrc", vec![path_include("/inc/root.yml", false)]);

    let (result, asked) = plan_with(
        &loaded_config_for_path(&root, Some("/inc/root.yml")),
        no_env_vars,
        no_directories,
        reject_config_read,
    );

    assert_eq!(
        result.expect_err("planning should fail when the root config includes itself"),
        ProgramError::IncludeCycle {
            cycle: vec!["/inc/root.yml".to_string(), "/inc/root.yml".to_string()],
        }
    );
    assert!(asked.is_empty());
}

#[test]
fn resolve_env_backed_include_paths_from_environment() {
    let included = config_with_includes("private_src", ".secrets", vec![]);
    let root = config_with_includes(
        ".",
        ".zshrc",
        vec![Include::Environment {
            env: "PRIVATE_CONFIG".to_string(),
            optional: false,
        }],
    );
    let plan = plan(
        &loaded_config_for_path(&root, None),
        |name: &str| {
            assert_eq!(name, "PRIVATE_CONFIG");
            Some("/private/.gitenv.yml".to_string())
        },
        no_directories,
        |path: &str| {
            assert_eq!(path, "/private/.gitenv.yml");
            Ok(loaded_config_for_test(included.clone(), path))
        },
    )
    .expect("planning should resolve an environment-backed include path");

    assert_eq!(
        plan,
        expected_plan(vec![
            intent_source(".", vec![expected_file_action(".zshrc")]),
            intent_source("private_src", vec![expected_file_action(".secrets")]),
        ])
    );
}

#[test]
fn skip_optional_env_backed_includes_when_variable_is_unset() {
    let root = config_with_includes(
        ".",
        ".zshrc",
        vec![Include::Environment {
            env: "PRIVATE_CONFIG".to_string(),
            optional: true,
        }],
    );

    let plan = plan(&root_loaded_config(&root), no_env_vars, no_directories, reject_config_read)
        .expect("planning should succeed when an optional env-backed include variable is unset");

    assert_eq!(
        plan,
        expected_plan(vec![intent_source(".", vec![expected_file_action(".zshrc")])])
    );
}

#[test]
fn reject_required_env_backed_includes_when_variable_is_unset() {
    let root = config_with_includes(
        ".",
        ".zshrc",
        vec![Include::Environment {
            env: "PRIVATE_CONFIG".to_string(),
            optional: false,
        }],
    );

    let error = plan(&root_loaded_config(&root), no_env_vars, no_directories, reject_config_read)
        .expect_err("planning should fail when a required env-backed include variable is unset");

    assert_eq!(
        error,
        ProgramError::MissingEnvironment {
            vars: vec!["PRIVATE_CONFIG".to_string()],
        }
    );
}

#[test]
fn apply_each_included_configs_defaults_only_to_its_own_sources() {
    let included = Config {
        defaults: Defaults {
            mode: ActionMode::Symlink,
            to: "~".to_string(),
            mkdir: true,
            overwrite: false,
            backup_on_overwrite: true,
        },
        ..config_with_includes("inc_src", ".tmux.conf", vec![])
    };
    let root = Config {
        defaults: Defaults {
            mode: ActionMode::Copy,
            to: "~/dest".to_string(),
            mkdir: false,
            overwrite: true,
            backup_on_overwrite: false,
        },
        ..config_with_includes("root_src", ".zshrc", vec![path_include("/inc/a.yml", false)])
    };

    let plan = plan(&loaded_config_for_path(&root, None), no_env_vars, no_directories, |path: &str| {
        assert_eq!(path, "/inc/a.yml");
        Ok(loaded_config_for_test(included.clone(), path))
    })
    .expect("planning should succeed and isolate defaults per included config");

    assert_eq!(
        plan,
        expected_plan(vec![
            intent_source(
                "root_src",
                vec![file_action(
                    ".zshrc",
                    ".zshrc",
                    options(ActionMode::Copy, "~/dest", false, ConflictPolicy::Overwrite),
                )],
            ),
            intent_source(
                "inc_src",
                vec![file_action(
                    ".tmux.conf",
                    ".tmux.conf",
                    options(ActionMode::Symlink, "~", true, ConflictPolicy::Skip),
                )],
            ),
        ])
    );
}

fn invalid_oops(_: &str) -> Result<LoadedConfig, ProgramError> {
    Err(ProgramError::InvalidConfiguration {
        message: "unknown field `oops`".to_string(),
    })
}

#[test]
fn cannot_derive_intent_plan_when_parsing_included_configs_fails() {
    let root = config_with_includes(".", ".zshrc", vec![path_include("/inc/bad.yml", false)]);

    let error = plan(&loaded_config_for_path(&root, None), no_env_vars, no_directories, invalid_oops)
        .expect_err("a parse error from an included config should propagate immediately");

    assert_eq!(
        error,
        ProgramError::InvalidConfiguration {
            message: "unknown field `oops`".to_string(),
        }
    );
}

#[test]
fn cannot_derive_intent_plan_when_parsing_optional_includes_fails() {
    let root = config_with_includes(".", ".zshrc", vec![path_include("/inc/optional-bad.yml", true)]);

    let error = plan(&loaded_config_for_path(&root, None), no_env_vars, no_directories, invalid_oops)
        .expect_err("planning should propagate structural include errors even when include is optional");

    assert_eq!(
        error,
        ProgramError::InvalidConfiguration {
            message: "unknown field `oops`".to_string(),
        }
    );
}

fn item_config(defaults: Defaults, source_to: Option<&str>, item: ConfigItem) -> Config {
    Config {
        defaults,
        ..make_config(vec![Source {
            from: SourceRoot::Path(".".to_string()),
            to: source_to.map(|t| t.to_string()),
            guard: None,
            configs: vec![item],
        }])
    }
}

fn backup_defaults() -> Defaults {
    Defaults {
        mode: ActionMode::Symlink,
        to: "~".to_string(),
        mkdir: true,
        overwrite: false,
        backup_on_overwrite: true,
    }
}

#[test]
fn item_level_mode_override_takes_precedence_over_default_mode() {
    let config = item_config(
        backup_defaults(),
        None,
        ConfigItem::File(FileConfig {
            mode: Some(ActionMode::Copy),
            ..file_item(".zshrc")
        }),
    );

    let plan = plan(&root_loaded_config(&config), no_env_vars, no_directories, reject_config_read)
        .expect("planning should apply item-level mode override");

    assert_eq!(
        plan,
        expected_plan(vec![intent_source(
            ".",
            vec![file_action(".zshrc", ".zshrc", options(ActionMode::Copy, "~", true, ConflictPolicy::Skip))],
        )])
    );
}

#[test]
fn item_level_to_override_takes_precedence_over_source_to() {
    let config = item_config(
        Defaults::default(),
        Some("~/shared"),
        ConfigItem::File(FileConfig {
            to: Some("~/item-specific".to_string()),
            ..file_item(".zshrc")
        }),
    );

    let plan = plan(&root_loaded_config(&config), no_env_vars, no_directories, reject_config_read)
        .expect("planning should apply item-level to override");

    assert_eq!(
        plan,
        expected_plan(vec![intent_source(
            ".",
            vec![file_action(
                ".zshrc",
                ".zshrc",
                options(ActionMode::Symlink, "~/item-specific", true, ConflictPolicy::Skip),
            )],
        )])
    );
}

#[test]
fn item_level_overwrite_true_resolves_to_overwrite_conflict_policy() {
    let config = item_config(
        backup_defaults(),
        None,
        ConfigItem::File(FileConfig {
            overwrite: Some(true),
            backup_on_overwrite: Some(false),
            ..file_item(".zshrc")
        }),
    );

    let plan = plan(&root_loaded_config(&config), no_env_vars, no_directories, reject_config_read)
        .expect("planning should apply item-level overwrite override");

    assert_eq!(
        plan,
        expected_plan(vec![intent_source(
            ".",
            vec![file_action(
                ".zshrc",
                ".zshrc",
                options(ActionMode::Symlink, "~", true, ConflictPolicy::Overwrite),
            )],
        )])
    );
}

#[test]
fn item_level_select_overrides_are_applied_independently() {
    let config = item_config(
        backup_defaults(),
        None,
        ConfigItem::Select(SelectConfig {
            mode: Some(ActionMode::Copy),
            to: Some("~/config".to_string()),
            ..select_item(SelectionType::Dot, false, &[])
        }),
    );

    let plan = plan(&root_loaded_config(&config), no_env_vars, no_directories, reject_config_read)
        .expect("planning should apply select item overrides");

    assert_eq!(
        plan,
        expected_plan(vec![intent_source(
            ".",
            vec![select_action(
                SelectionType::Dot,
                false,
                &[],
                options(ActionMode::Copy, "~/config", true, ConflictPolicy::Skip),
            )],
        )])
    );
}

#[test]
fn cannot_set_overwrite_false_and_backup_on_overwrite_true_at_file_item_level() {
    let config = item_config(
        Defaults::default(),
        None,
        ConfigItem::File(FileConfig {
            overwrite: Some(false),
            backup_on_overwrite: Some(true),
            ..file_item(".zshrc")
        }),
    );

    let error = plan(&root_loaded_config(&config), no_env_vars, no_directories, reject_config_read)
        .expect_err("planning should reject explicit overwrite: false with backup_on_overwrite: true at item level");

    assert!(matches!(
        error,
        ProgramError::InvalidConfiguration { ref message }
            if message.contains("overwrite: false") && message.contains("backup_on_overwrite: true")
    ));
}

#[test]
fn cannot_set_overwrite_false_and_backup_on_overwrite_true_at_select_item_level() {
    let config = item_config(
        Defaults::default(),
        None,
        ConfigItem::Select(SelectConfig {
            overwrite: Some(false),
            backup_on_overwrite: Some(true),
            ..select_item(SelectionType::Dot, false, &[])
        }),
    );

    let error = plan(&root_loaded_config(&config), no_env_vars, no_directories, reject_config_read)
        .expect_err("planning should reject explicit overwrite: false with backup_on_overwrite: true at select item level");

    assert_eq!(
        error,
        ProgramError::InvalidConfiguration {
            message: "item-level `overwrite: false` with `backup_on_overwrite: true` is not a valid combination"
                .to_string(),
        }
    );
}

#[test]
fn inherited_backup_default_is_valid_when_overwrite_resolves_to_false() {
    let config = item_config(backup_defaults(), None, make_file_config_item(".zshrc"));

    let plan = plan(&root_loaded_config(&config), no_env_vars, no_directories, reject_config_read)
        .expect("planning should succeed when backup default is inherited and overwrite is false");

    assert_eq!(
        plan,
        expected_plan(vec![intent_source(
            ".",
            vec![file_action(".zshrc", ".zshrc", options(ActionMode::Symlink, "~", true, ConflictPolicy::Skip))],
        )])
    );
}

// Laws, on concrete values.

#[test]
fn report_missing_variables_sorted_and_once_across_the_include_tree() {
    let included = make_config(vec![
        make_source(
            SourceRoot::Environment { env: "ALPHA".to_string(), optional: false },
            vec![make_file_config_item(".a")],
        ),
        make_source(
            SourceRoot::Environment { env: "ZETA".to_string(), optional: false },
            vec![make_file_config_item(".z")],
        ),
    ]);
    let root = Config {
        includes: vec![path_include("/inc/a.yml", false)],
        ..make_config(vec![make_source(
            SourceRoot::Environment { env: "ZETA".to_string(), optional: false },
            vec![make_file_config_item(".zshrc")],
        )])
    };

    let error = plan(&loaded_config_for_path(&root, None), no_env_vars, no_directories, |path: &str| {
        Ok(loaded_config_for_test(included.clone(), path))
    })
    .expect_err("unset variables should be reported");

    assert_eq!(
        error,
        ProgramError::MissingEnvironment {
            vars: vec!["ALPHA".to_string(), "ZETA".to_string()],
        }
    );
}

#[test]
fn report_unset_variables_before_missing_includes() {
    let root = Config {
        includes: vec![path_include("/inc/missing.yml", false)],
        ..make_config(vec![make_source(
            SourceRoot::Environment { env: "SOURCE_DIR".to_string(), optional: false },
            vec![make_file_config_item(".zshrc")],
        )])
    };

    let error = plan(&loaded_config_for_path(&root, None), no_env_vars, no_directories, read_failed)
        .expect_err("planning should fail");

    assert_eq!(
        error,
        ProgramError::MissingEnvironment {
            vars: vec!["SOURCE_DIR".to_string()],
        }
    );
}

#[test]
fn ask_each_question_once_in_declaration_order() {
    let included = config_with_includes("inc", ".inc", vec![]);
    let root = Config {
        includes: vec![path_include("/inc/a.yml", false)],
        ..make_config(vec![Source {
            from: SourceRoot::Environment { env: "DOTFILES".to_string(), optional: false },
            to: None,
            guard: Some(Guard::ToExists),
            configs: vec![make_file_config_item(".zshrc")],
        }])
    };

    let (result, asked) = plan_with(
        &loaded_config_for_path(&root, None),
        |_: &str| Some("/dotfiles".to_string()),
        |_: &str| true,
        |path: &str| Ok(loaded_config_for_test(included.clone(), path)),
    );

    assert!(result.is_ok());
    assert_eq!(
        asked,
        vec![
            IntentRequest::EnvironmentVariable("DOTFILES".to_string()),
            IntentRequest::DirectoryProbe("/home/tester".to_string()),
            IntentRequest::ConfigFile("/inc/a.yml".to_string()),
        ]
    );
}

fn read_a_or_fail(path: &str) -> Result<LoadedConfig, ProgramError> {
    if path == "/inc/a.yml" {
        let a = config_with_includes("a_src", ".aliases", vec![]);
        Ok(loaded_config_for_test(a, path))
    } else {
        read_failed(path)
    }
}

#[test]
fn an_unreadable_optional_include_listed_first_changes_nothing() {
    let root = config_with_includes("root_src", ".zshrc", vec![path_include("/inc/a.yml", false)]);
    let extended = config_with_includes(
        "root_src",
        ".zshrc",
        vec![path_include("/inc/missing.yml", true), path_include("/inc/a.yml", false)],
    );

    let (without, asked_without) =
        plan_with(&loaded_config_for_path(&root, None), no_env_vars, no_directories, read_a_or_fail);
    let (with, asked_with) =
        plan_with(&loaded_config_for_path(&extended, None), no_env_vars, no_directories, read_a_or_fail);

    assert_eq!(with, without);
    assert_eq!(
        with.expect("planning should succeed"),
        expected_plan(vec![
            intent_source("root_src", vec![expected_file_action(".zshrc")]),
            intent_source("a_src", vec![expected_file_action(".aliases")]),
        ])
    );
    assert_eq!(asked_with.len(), asked_without.len() + 1);
    assert_eq!(asked_with[0], IntentRequest::ConfigFile("/inc/missing.yml".to_string()));
}

#[test]
fn an_unset_optional_variable_include_listed_first_changes_nothing() {
    let root = config_with_includes(".", ".zshrc", vec![path_include("/inc/missing_b.yml", false)]);
    let extended = config_with_includes(
        ".",
        ".zshrc",
        vec![
            Include::Environment {
                env: "PRIVATE_CONFIG".to_string(),
                optional: true,
            },
            path_include("/inc/missing_b.yml", false),
        ],
    );

    let without = plan(&loaded_config_for_path(&root, None), no_env_vars, no_directories, read_failed);
    let with = plan(&loaded_config_for_path(&extended, None), no_env_vars, no_directories, read_failed);

    assert_eq!(with, without);
    assert_eq!(
        with,
        Err(ProgramError::IncludeNotFound {
            paths: vec!["/inc/missing_b.yml".to_string()],
        })
    );
}

#[test]
fn an_unreadable_optional_include_passes_over_a_later_required_one_of_the_same_path() {
    let required_only =
        config_with_includes("root_src", ".zshrc", vec![path_include("/inc/missing.yml", false)]);
    let both = config_with_includes(
        "root_src",
        ".zshrc",
        vec![path_include("/inc/missing.yml", true), path_include("/inc/missing.yml", false)],
    );

    let without = plan(&loaded_config_for_path(&required_only, None), no_env_vars, no_directories, read_failed);
    let with = plan(&loaded_config_for_path(&both, None), no_env_vars, no_directories, read_failed);

    assert_eq!(
        without,
        Err(ProgramError::IncludeNotFound {
            paths: vec!["/inc/missing.yml".to_string()],
        })
    );
    assert_eq!(
        with.expect("the later required include is skipped as already seen"),
        expected_plan(vec![intent_source("root_src", vec![expected_file_action(".zshrc")])])
    );
}

#[test]
fn an_unreadable_optional_include_between_others_changes_nothing() {
    let root = config_with_includes(
        "root_src",
        ".zshrc",
        vec![path_include("/inc/a.yml", false), path_include("/inc/missing_b.yml", false)],
    );
    let extended = config_with_includes(
        "root_src",
        ".zshrc",
        vec![
            path_include("/inc/a.yml", false),
            path_include("/inc/missing.yml", true),
            Include::Environment {
                env: "PRIVATE_CONFIG".to_string(),
                optional: true,
            },
            path_include("/inc/missing_b.yml", false),
        ],
    );

    let (without, asked_without) =
        plan_with(&loaded_config_for_path(&root, None), no_env_vars, no_directories, read_a_or_fail);
    let (with, asked_with) =
        plan_with(&loaded_config_for_path(&extended, None), no_env_vars, no_directories, read_a_or_fail);

    assert_eq!(with, without);
    assert_eq!(
        with,
        Err(ProgramError::IncludeNotFound {
            paths: vec!["/inc/missing_b.yml".to_string()],
        })
    );
    assert_eq!(
        asked_with,
        vec![
            IntentRequest::ConfigFile("/inc/a.yml".to_string()),
            IntentRequest::ConfigFile("/inc/missing.yml".to_string()),
            IntentRequest::EnvironmentVariable("PRIVATE_CONFIG".to_string()),
            IntentRequest::ConfigFile("/inc/missing_b.yml".to_string()),
        ]
    );
    assert_eq!(asked_without.len(), 2);
}

#[test]
fn an_include_of_a_path_planned_before_changes_nothing() {
    let root = config_with_includes("root_src", ".zshrc", vec![path_include("/inc/a.yml", false)]);
    let extended = config_with_includes(
        "root_src",
        ".zshrc",
        vec![path_include("/inc/a.yml", false), path_include("/inc/a.yml", true)],
    );

    let (without, asked_without) =
        plan_with(&loaded_config_for_path(&root, None), no_env_vars, no_directories, read_a_or_fail);
    let (with, asked_with) =
        plan_with(&loaded_config_for_path(&extended, None), no_env_vars, no_directories, read_a_or_fail);

    assert_eq!(with, without);
    assert_eq!(asked_with, asked_without);
    assert_eq!(asked_with, vec![IntentRequest::ConfigFile("/inc/a.yml".to_string())]);
}
