//! The configuration model, its structural validation, and the meaning of
//! the shorthand spellings the configuration file accepts.

use vstd::prelude::*;

use crate::errors::{ProgramError, ProgramErrorView};
use crate::text::{chars_of, string_from_char_range};

verus! {

/// Configuration loaded from a file path together with its parsed content.
#[derive(Debug, Clone, PartialEq, Eq)]
pub struct LoadedConfig {
    pub path: String,
    pub config: Config,
}

/// A loaded configuration reads as its content.
impl std::ops::Deref for LoadedConfig {
    type Target = Config;

    fn deref(&self) -> (res: &Config)
        ensures
            *res == self.config,
    {
        &self.config
    }
}

/// A loaded configuration's content can be changed in place.
impl std::ops::DerefMut for LoadedConfig {
    fn deref_mut(&mut self) -> (res: &mut Config)
        ensures
            *res == old(self).config,
            final(self).path == old(self).path,
            final(self).config == *final(res),
    {
        &mut self.config
    }
}

/// Parsed top-level configuration model.
#[derive(Debug, Clone, PartialEq, Eq)]
pub struct Config {
    pub version: u32,
    pub repository: String,
    pub defaults: Defaults,
    pub sources: Vec<Source>,
    pub includes: Vec<Include>,
}

/// Global default options inherited by sources and items unless overridden.
#[derive(Debug, Clone, PartialEq, Eq)]
pub struct Defaults {
    pub mode: ActionMode,
    pub to: String,
    pub mkdir: bool,
    pub overwrite: bool,
    pub backup_on_overwrite: bool,
}

impl Default for Defaults {
    fn default() -> (res: Self)
        ensures
            res.mode == ActionMode::Symlink,
            res.to@ == seq!['~'],
            res.mkdir,
            !res.overwrite,
            res.backup_on_overwrite,
    {
        proof {
            reveal_strlit("~");
        }
        Defaults {
            mode: ActionMode::Symlink,
            to: String::from_str("~"),
            mkdir: true,
            overwrite: false,
            backup_on_overwrite: true,
        }
    }
}

/// Per-action execution mode declared in config.
#[derive(Debug, Clone, Copy, PartialEq, Eq, Structural)]
pub enum ActionMode {
    Symlink,
    Copy,
}

/// A source directory plus the list of actions that originate from it.
#[derive(Debug, Clone, PartialEq, Eq)]
pub struct Source {
    pub from: SourceRoot,
    pub to: Option<String>,
    pub guard: Option<Guard>,
    pub configs: Vec<ConfigItem>,
}

/// Declares where a source directory path comes from.
///
/// Path variants are resolved as-is, while environment variants defer the
/// concrete path lookup to plan derivation time.
#[derive(Debug, Clone, PartialEq, Eq)]
pub enum SourceRoot {
    Path(String),
    ExplicitPath { path: String },
    Environment { env: String, optional: bool },
}

/// A declarative condition that must be satisfied for a source to be included
/// in the plan.
///
/// `ToExists` checks that the resolved destination directory for this source
/// exists. `DirectoryExists` checks an arbitrary path.
#[derive(Debug, Clone, PartialEq, Eq)]
pub enum Guard {
    ToExists,
    DirectoryExists(String),
}

/// A reference to another config file to compose into this one.
#[derive(Debug, Clone, PartialEq, Eq)]
pub enum Include {
    Path { path: String, optional: bool },
    Environment { env: String, optional: bool },
}

/// A source action item, either a single file or a bulk `select` rule.
#[derive(Debug, Clone, PartialEq, Eq)]
pub enum ConfigItem {
    File(FileConfig),
    Select(SelectConfig),
}

/// A `file` config item that targets a single source-relative file.
#[derive(Debug, Clone, PartialEq, Eq)]
pub struct FileConfig {
    pub file: String,
    pub as_name: Option<String>,
    pub mode: Option<ActionMode>,
    pub to: Option<String>,
    pub mkdir: Option<bool>,
    pub overwrite: Option<bool>,
    pub backup_on_overwrite: Option<bool>,
}

/// A `select` config item that targets a set of files based on options.
#[derive(Debug, Clone, PartialEq, Eq)]
pub struct SelectConfig {
    pub selection_type: SelectionType,
    pub recursive: bool,
    pub existing_directories_only: bool,
    pub exclude: Vec<String>,
    pub mode: Option<ActionMode>,
    pub to: Option<String>,
    pub mkdir: Option<bool>,
    pub overwrite: Option<bool>,
    pub backup_on_overwrite: Option<bool>,
}

/// Selection scope for `select` config items.
#[derive(Debug, Clone, Copy, PartialEq, Eq, Structural)]
pub enum SelectionType {
    Dot,
    NonDot,
    All,
}

// ---------------------------------------------------------------------------
// Shorthand spellings
// ---------------------------------------------------------------------------

/// The variable named by a `$NAME` shorthand: a `$` followed by at least one
/// character. A bare `$` names nothing.
pub open spec fn shorthand_env_name(text: Seq<char>) -> Option<Seq<char>> {
    if text.len() > 1 && text[0] == '$' {
        Some(text.skip(1))
    } else {
        None
    }
}

/// The variable named by `text` when it is a `$NAME` shorthand.
pub fn env_name_of_shorthand(text: &String) -> (res: Option<String>)
    ensures
        res matches Some(n) ==> shorthand_env_name(text@) == Some(n@),
        res is None ==> shorthand_env_name(text@) is None,
{
    let chars = chars_of(text.as_str());
    if chars.len() > 1 && chars[0] == '$' {
        let name = string_from_char_range(&chars, 1, chars.len());
        assert(chars@.subrange(1, chars@.len() as int) == chars@.skip(1));
        Some(name)
    } else {
        None
    }
}

impl SourceRoot {
    /// The source root written as a single string: `$NAME` reads the path from
    /// an environment variable, every other string (a bare `$` too) is a path.
    pub fn from_shorthand(text: String) -> (res: SourceRoot)
        ensures
            match shorthand_env_name(text@) {
                Some(name) => res matches SourceRoot::Environment { env, optional } && env@
                    == name && !optional,
                None => res == SourceRoot::Path(text),
            },
    {
        match env_name_of_shorthand(&text) {
            Some(env) => SourceRoot::Environment { env, optional: false },
            None => SourceRoot::Path(text),
        }
    }
}

impl Include {
    /// The include written as a single string: `$NAME` is a required
    /// environment-backed include, every other string (a bare `$` too) a
    /// required literal path.
    pub fn from_shorthand(text: String) -> (res: Include)
        ensures
            match shorthand_env_name(text@) {
                Some(name) => res matches Include::Environment { env, optional } && env@ == name
                    && !optional,
                None => res == (Include::Path { path: text, optional: false }),
            },
    {
        match env_name_of_shorthand(&text) {
            Some(env) => Include::Environment { env, optional: false },
            None => Include::Path { path: text, optional: false },
        }
    }
}

/// The message for a guard shorthand other than `to_exists`.
pub open spec fn unknown_guard_message(text: Seq<char>) -> Seq<char> {
    "unknown guard shorthand `"@ + text + "`, expected `to_exists`"@
}

impl Guard {
    /// The guard written as a single string: only `to_exists` is accepted.
    pub fn from_shorthand(text: String) -> (res: Result<Guard, String>)
        ensures
            text@ == "to_exists"@ ==> res == Ok::<Guard, String>(Guard::ToExists),
            text@ != "to_exists"@ ==> (res matches Err(m) && m@ == unknown_guard_message(text@)),
    {
        let expected = String::from_str("to_exists");
        if text == expected {
            Ok(Guard::ToExists)
        } else {
            let mut message = String::from_str("unknown guard shorthand `");
            message.append(text.as_str());
            message.append("`, expected `to_exists`");
            Err(message)
        }
    }
}

impl ConfigItem {
    /// A file item written as its bare file name, with every option
    /// inherited.
    pub fn from_shorthand(file: String) -> (res: ConfigItem)
        ensures
            res == ConfigItem::File(
                FileConfig {
                    file,
                    as_name: None,
                    mode: None,
                    to: None,
                    mkdir: None,
                    overwrite: None,
                    backup_on_overwrite: None,
                },
            ),
    {
        ConfigItem::File(
            FileConfig {
                file,
                as_name: None,
                mode: None,
                to: None,
                mkdir: None,
                overwrite: None,
                backup_on_overwrite: None,
            },
        )
    }
}

// ---------------------------------------------------------------------------
// Validation
// ---------------------------------------------------------------------------

/// The label a source root is reported under: its path, or `$NAME` for an
/// environment-backed root.
pub open spec fn root_label(root: SourceRoot) -> Seq<char> {
    match root {
        SourceRoot::Path(path) => path@,
        SourceRoot::ExplicitPath { path } => path@,
        SourceRoot::Environment { env, .. } => seq!['$'] + env@,
    }
}

/// The label a source root is reported under.
pub fn source_root_label(source_root: &SourceRoot) -> (res: String)
    ensures
        res@ == root_label(*source_root),
{
    match source_root {
        SourceRoot::Path(path) => path.clone(),
        SourceRoot::ExplicitPath { path } => path.clone(),
        SourceRoot::Environment { env, .. } => {
            proof {
                reveal_strlit("$");
            }
            let mut label = String::from_str("$");
            label.append(env.as_str());
            label
        },
    }
}

/// A select item that asks to keep only existing target directories without
/// recursing.
pub open spec fn item_misuses_directory_policy(item: ConfigItem) -> bool {
    item matches ConfigItem::Select(select) && select.existing_directories_only
        && !select.recursive
}

/// Whether some item of `source` misuses the directory policy.
pub open spec fn source_misuses_directory_policy(source: Source) -> bool {
    exists|k: int| 0 <= k < source.configs@.len() && item_misuses_directory_policy(
        #[trigger] source.configs@[k],
    )
}

/// The validation message when no source is declared.
pub open spec fn no_sources_message() -> Seq<char> {
    "config must declare at least one source"@
}

/// The validation message for a source without items.
pub open spec fn empty_source_message(root: SourceRoot) -> Seq<char> {
    "source `"@ + root_label(root) + "` must declare at least one config item"@
}

/// The validation message for a misused directory policy.
pub open spec fn directory_policy_message() -> Seq<char> {
    "existing_directories_only requires recursive to be true"@
}

/// The outcome of validating the sources `sources[from..]`, in order: the
/// first source without items, or the first misused directory policy within
/// a source, fails.
pub open spec fn sources_validation(sources: Seq<Source>, from: int) -> Option<Seq<char>>
    decreases sources.len() - from,
{
    if from >= sources.len() {
        None
    } else if sources[from].configs@.len() == 0 {
        Some(empty_source_message(sources[from].from))
    } else if source_misuses_directory_policy(sources[from]) {
        Some(directory_policy_message())
    } else {
        sources_validation(sources, from + 1)
    }
}

/// The structural validation of a parsed config: `None` when valid, else the
/// message of the first problem found.
pub open spec fn config_validation(config: Config) -> Option<Seq<char>> {
    if config.sources@.len() == 0 {
        Some(no_sources_message())
    } else {
        sources_validation(config.sources@, 0)
    }
}

fn invalid_configuration(message: String) -> (res: ProgramError)
    ensures
        res@ == (ProgramErrorView::InvalidConfiguration { message: message@ }),
{
    ProgramError::InvalidConfiguration { message }
}

/// Validates the structure of a parsed configuration: at least one source,
/// at least one item per source, and `existing_directories_only` only
/// together with `recursive`.
pub fn validate_config(config: &Config) -> (res: Result<(), ProgramError>)
    ensures
        match config_validation(*config) {
            None => res is Ok,
            Some(message) => res matches Err(e) && e@ == (ProgramErrorView::InvalidConfiguration {
                message,
            }),
        },
{
    if config.sources.len() == 0 {
        return Err(
            invalid_configuration(String::from_str("config must declare at least one source")),
        );
    }
    let mut i: usize = 0;
    while i < config.sources.len()
        invariant
            i <= config.sources.len(),
            config.sources@.len() > 0,
            config_validation(*config) == sources_validation(config.sources@, i as int),
        decreases config.sources.len() - i,
    {
        let source = &config.sources[i];
        if source.configs.len() == 0 {
            let label = source_root_label(&source.from);
            let mut message = String::from_str("source `");
            message.append(label.as_str());
            message.append("` must declare at least one config item");
            return Err(invalid_configuration(message));
        }
        let mut k: usize = 0;
        while k < source.configs.len()
            invariant
                k <= source.configs.len(),
                i < config.sources.len(),
                source == config.sources@[i as int],
                source.configs@.len() > 0,
                config_validation(*config) == sources_validation(config.sources@, i as int),
                forall|j: int| 0 <= j < k ==> !item_misuses_directory_policy(
                    #[trigger] source.configs@[j],
                ),
            decreases source.configs.len() - k,
        {
            if let ConfigItem::Select(select) = &source.configs[k] {
                if select.existing_directories_only && !select.recursive {
                    assert(item_misuses_directory_policy(source.configs@[k as int]));
                    return Err(
                        invalid_configuration(
                            String::from_str(
                                "existing_directories_only requires recursive to be true",
                            ),
                        ),
                    );
                }
            }
            k += 1;
        }
        assert(!source_misuses_directory_policy(*source));
        i += 1;
    }
    Ok(())
}


} // verus!
