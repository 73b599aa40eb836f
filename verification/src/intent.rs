//! Intent planning: resolves defaults, source roots, guards and includes of a
//! configuration into an [`IntentPlan`], keeping selector intent unexpanded.
//!
//! Planning needs answers from the outside world (environment variables,
//! directory probes, included config files). The planner is a pure function
//! of the configuration and the answers received so far, given in
//! [`IntentReplies`] in the order they were asked for: it either finishes, or
//! names the next question in [`IntentProgress::Needs`]. The caller answers
//! and calls again with the answer appended.

use vstd::prelude::*;

use crate::config::{
    ActionMode, Config, ConfigItem, Defaults, Guard, Include, LoadedConfig, SelectionType, Source,
    SourceRoot,
};
use crate::errors::{copy_texts, ProgramError, ProgramErrorView};
use crate::logging::{
    decimal, event_of, events_view, labelled_count, make_event, LogEvent, LogEventView, RecordLevel,
};
use crate::text::{
    expand_home_path, expand_home_prefixed_or_literal_path, insert_sorted_text, is_absolute,
    is_absolute_path, join_path, lemma_sorted_insert, parent_path, path_join, path_parent, same_path,
    same_path_spec, sorted_insert, strictly_sorted, texts_view,
};

verus! {

/// Determines what the executor does when the destination file already exists.
#[derive(Debug, Clone, Copy, PartialEq, Eq, Structural)]
pub enum ConflictPolicy {
    /// Leave the destination untouched and skip the action.
    Skip,
    /// Overwrite the destination file without keeping a backup.
    Overwrite,
    /// Overwrite the destination file after saving a backup copy.
    OverwriteWithBackup,
}

/// Resolved execution options for a planned action, derived from the global
/// defaults merged with any source-level and item-level overrides.
#[derive(Debug, Clone, PartialEq, Eq)]
pub struct ResolvedOptions {
    pub mode: ActionMode,
    pub to: String,
    pub mkdir: bool,
    pub conflict_policy: ConflictPolicy,
}

/// The intent-stage planning output derived from configuration semantics.
#[derive(Debug, Clone, PartialEq, Eq)]
pub struct IntentPlan {
    /// Path to the repository root (from the top-level config).
    pub repository: String,
    /// Ordered list of sources with their resolved intent actions.
    pub sources: Vec<IntentSource>,
}

/// A resolved source directory together with the actions to be run from it.
#[derive(Debug, Clone, PartialEq, Eq)]
pub struct IntentSource {
    /// Resolved filesystem path to the source directory.
    pub from: String,
    pub actions: Vec<IntentAction>,
}

/// A single resolved action to be executed against a source directory.
#[derive(Debug, Clone, PartialEq, Eq)]
pub enum IntentAction {
    /// Copy or link a specific named file.
    File(IntentFileAction),
    /// Copy or link all matching files from the source directory.
    Select(IntentSelectAction),
}

/// Resolved action that operates on a single named file.
#[derive(Debug, Clone, PartialEq, Eq)]
pub struct IntentFileAction {
    /// Source-relative filename to operate on.
    pub file: String,
    /// Destination filename; defaults to `file` when no `as` override is set.
    pub as_name: String,
    pub options: ResolvedOptions,
}

/// Resolved action that operates on a selected set of files.
#[derive(Debug, Clone, PartialEq, Eq)]
pub struct IntentSelectAction {
    /// Selection scope used by operation-stage selector expansion.
    pub selection_type: SelectionType,
    /// Enables recursive directory traversal during operation-stage expansion.
    pub recursive: bool,
    /// Skips recursive entries whose target directory does not exist.
    pub existing_directories_only: bool,
    /// Patterns of source-relative paths excluded from selection.
    pub exclude: Vec<String>,
    pub options: ResolvedOptions,
}

// ---------------------------------------------------------------------------
// Models
// ---------------------------------------------------------------------------

pub struct ResolvedOptionsView {
    pub mode: ActionMode,
    pub to: Seq<char>,
    pub mkdir: bool,
    pub conflict_policy: ConflictPolicy,
}

pub struct IntentPlanView {
    pub repository: Seq<char>,
    pub sources: Seq<IntentSourceView>,
}

pub struct IntentSourceView {
    pub from: Seq<char>,
    pub actions: Seq<IntentActionView>,
}

pub enum IntentActionView {
    File { file: Seq<char>, as_name: Seq<char>, options: ResolvedOptionsView },
    Select {
        selection_type: SelectionType,
        recursive: bool,
        existing_directories_only: bool,
        exclude: Seq<Seq<char>>,
        options: ResolvedOptionsView,
    },
}

impl View for ResolvedOptions {
    type V = ResolvedOptionsView;

    open spec fn view(&self) -> ResolvedOptionsView {
        ResolvedOptionsView {
            mode: self.mode,
            to: self.to@,
            mkdir: self.mkdir,
            conflict_policy: self.conflict_policy,
        }
    }
}

impl View for IntentAction {
    type V = IntentActionView;

    open spec fn view(&self) -> IntentActionView {
        match self {
            IntentAction::File(a) => IntentActionView::File {
                file: a.file@,
                as_name: a.as_name@,
                options: a.options@,
            },
            IntentAction::Select(a) => IntentActionView::Select {
                selection_type: a.selection_type,
                recursive: a.recursive,
                existing_directories_only: a.existing_directories_only,
                exclude: texts_view(a.exclude@),
                options: a.options@,
            },
        }
    }
}

pub open spec fn actions_view(actions: Seq<IntentAction>) -> Seq<IntentActionView> {
    actions.map_values(|a: IntentAction| a@)
}

impl View for IntentSource {
    type V = IntentSourceView;

    open spec fn view(&self) -> IntentSourceView {
        IntentSourceView { from: self.from@, actions: actions_view(self.actions@) }
    }
}

pub open spec fn sources_view(sources: Seq<IntentSource>) -> Seq<IntentSourceView> {
    sources.map_values(|s: IntentSource| s@)
}

impl View for IntentPlan {
    type V = IntentPlanView;

    open spec fn view(&self) -> IntentPlanView {
        IntentPlanView { repository: self.repository@, sources: sources_view(self.sources@) }
    }
}

// ---------------------------------------------------------------------------
// Questions, answers and progress
// ---------------------------------------------------------------------------

/// A question the planner needs answered before it can go on.
#[derive(Debug, PartialEq, Eq)]
pub enum IntentRequest {
    /// The value of an environment variable, if set.
    EnvironmentVariable(String),
    /// Whether the path names an existing directory.
    DirectoryProbe(String),
    /// The parsed config file at the path.
    ConfigFile(String),
}

pub enum IntentRequestView {
    EnvironmentVariable(Seq<char>),
    DirectoryProbe(Seq<char>),
    ConfigFile(Seq<char>),
}

impl View for IntentRequest {
    type V = IntentRequestView;

    open spec fn view(&self) -> IntentRequestView {
        match self {
            IntentRequest::EnvironmentVariable(n) => IntentRequestView::EnvironmentVariable(n@),
            IntentRequest::DirectoryProbe(p) => IntentRequestView::DirectoryProbe(p@),
            IntentRequest::ConfigFile(p) => IntentRequestView::ConfigFile(p@),
        }
    }
}

/// The answers received so far, one list per kind of question, each in the
/// order the questions were asked.
pub struct IntentReplies {
    /// Values of the environment variables asked for (`None` when unset).
    pub environment: Vec<Option<String>>,
    /// Whether each probed path is an existing directory.
    pub directories: Vec<bool>,
    /// Each requested config file, or the error met while reading or parsing
    /// it.
    pub configs: Vec<Result<LoadedConfig, ProgramError>>,
}

impl IntentReplies {
    /// No answers yet.
    pub fn new() -> (res: Self)
        ensures
            res.environment@.len() == 0,
            res.directories@.len() == 0,
            res.configs@.len() == 0,
    {
        IntentReplies { environment: Vec::new(), directories: Vec::new(), configs: Vec::new() }
    }
}

/// Where intent planning stands.
#[derive(Debug, PartialEq, Eq)]
pub enum IntentProgress {
    /// Planning is over, with this outcome.
    Finished(Result<IntentPlan, ProgramError>),
    /// Planning needs this question answered first.
    Needs(IntentRequest),
}

pub enum IntentProgressView {
    Finished(Result<IntentPlanView, ProgramErrorView>),
    Needs(IntentRequestView),
}

impl View for IntentProgress {
    type V = IntentProgressView;

    open spec fn view(&self) -> IntentProgressView {
        match self {
            IntentProgress::Finished(Ok(plan)) => IntentProgressView::Finished(Ok(plan@)),
            IntentProgress::Finished(Err(e)) => IntentProgressView::Finished(Err(e@)),
            IntentProgress::Needs(r) => IntentProgressView::Needs(r@),
        }
    }
}

// ---------------------------------------------------------------------------
// Option resolution
// ---------------------------------------------------------------------------

/// Maps the resolved `overwrite` and `backup_on_overwrite` flags to a policy.
pub open spec fn conflict_policy_of(overwrite: bool, backup_on_overwrite: bool) -> ConflictPolicy {
    if !overwrite {
        ConflictPolicy::Skip
    } else if backup_on_overwrite {
        ConflictPolicy::OverwriteWithBackup
    } else {
        ConflictPolicy::Overwrite
    }
}

/// Maps the resolved `overwrite` and `backup_on_overwrite` flags to a policy.
pub fn resolve_conflict_policy(overwrite: bool, backup_on_overwrite: bool) -> (res: ConflictPolicy)
    ensures
        res == conflict_policy_of(overwrite, backup_on_overwrite),
{
    if !overwrite {
        ConflictPolicy::Skip
    } else if backup_on_overwrite {
        ConflictPolicy::OverwriteWithBackup
    } else {
        ConflictPolicy::Overwrite
    }
}

/// The message for an item that sets `overwrite: false` together with
/// `backup_on_overwrite: true`.
pub open spec fn contradictory_overwrite_message() -> Seq<char> {
    "item-level `overwrite: false` with `backup_on_overwrite: true` is not a valid combination"@
}

pub open spec fn unwrap_or<T>(value: Option<T>, fallback: T) -> T {
    match value {
        Some(v) => v,
        None => fallback,
    }
}

pub open spec fn option_text(value: Option<String>, fallback: Seq<char>) -> Seq<char> {
    match value {
        Some(v) => v@,
        None => fallback,
    }
}

/// The options of one item: item overrides over the source destination and
/// the config defaults. An item that explicitly sets `overwrite: false` and
/// `backup_on_overwrite: true` is rejected; inherited values never are.
pub open spec fn item_options(
    defaults: Defaults,
    source_to: Seq<char>,
    mode: Option<ActionMode>,
    to: Option<String>,
    mkdir: Option<bool>,
    overwrite: Option<bool>,
    backup_on_overwrite: Option<bool>,
) -> Result<ResolvedOptionsView, ProgramErrorView> {
    if overwrite == Some(false) && backup_on_overwrite == Some(true) {
        Err(ProgramErrorView::InvalidConfiguration { message: contradictory_overwrite_message() })
    } else {
        Ok(
            ResolvedOptionsView {
                mode: unwrap_or(mode, defaults.mode),
                to: option_text(to, source_to),
                mkdir: unwrap_or(mkdir, defaults.mkdir),
                conflict_policy: conflict_policy_of(
                    unwrap_or(overwrite, defaults.overwrite),
                    unwrap_or(backup_on_overwrite, defaults.backup_on_overwrite),
                ),
            },
        )
    }
}

fn unwrap_flag(value: Option<bool>, fallback: bool) -> (res: bool)
    ensures
        res == unwrap_or(value, fallback),
{
    match value {
        Some(v) => v,
        None => fallback,
    }
}

/// Resolves execution options for a single config item by merging item-level
/// overrides on top of the inherited defaults and source-level destination.
pub fn resolve_item_options(
    defaults: &Defaults,
    source_to: &String,
    mode: Option<ActionMode>,
    to: &Option<String>,
    mkdir: Option<bool>,
    overwrite: Option<bool>,
    backup_on_overwrite: Option<bool>,
) -> (res: Result<ResolvedOptions, ProgramError>)
    ensures
        match item_options(*defaults, source_to@, mode, *to, mkdir, overwrite, backup_on_overwrite) {
            Ok(o) => res matches Ok(r) && r@ == o,
            Err(e) => res matches Err(r) && r@ == e,
        },
{
    if overwrite == Some(false) && backup_on_overwrite == Some(true) {
        return Err(
            ProgramError::InvalidConfiguration {
                message: String::from_str(
                    "item-level `overwrite: false` with `backup_on_overwrite: true` is not a valid combination",
                ),
            },
        );
    }
    let resolved_mode = match mode {
        Some(m) => m,
        None => defaults.mode,
    };
    let resolved_to = match to {
        Some(t) => t.clone(),
        None => source_to.clone(),
    };
    Ok(
        ResolvedOptions {
            mode: resolved_mode,
            to: resolved_to,
            mkdir: unwrap_flag(mkdir, defaults.mkdir),
            conflict_policy: resolve_conflict_policy(
                unwrap_flag(overwrite, defaults.overwrite),
                unwrap_flag(backup_on_overwrite, defaults.backup_on_overwrite),
            ),
        },
    )
}

/// The intent of one config item.
pub open spec fn item_intent(defaults: Defaults, source_to: Seq<char>, item: ConfigItem) -> Result<
    IntentActionView,
    ProgramErrorView,
> {
    match item {
        ConfigItem::File(f) => match item_options(
            defaults,
            source_to,
            f.mode,
            f.to,
            f.mkdir,
            f.overwrite,
            f.backup_on_overwrite,
        ) {
            Ok(options) => Ok(
                IntentActionView::File {
                    file: f.file@,
                    as_name: option_text(f.as_name, f.file@),
                    options,
                },
            ),
            Err(e) => Err(e),
        },
        ConfigItem::Select(s) => match item_options(
            defaults,
            source_to,
            s.mode,
            s.to,
            s.mkdir,
            s.overwrite,
            s.backup_on_overwrite,
        ) {
            Ok(options) => Ok(
                IntentActionView::Select {
                    selection_type: s.selection_type,
                    recursive: s.recursive,
                    existing_directories_only: s.existing_directories_only,
                    exclude: texts_view(s.exclude@),
                    options,
                },
            ),
            Err(e) => Err(e),
        },
    }
}

/// The intents of `items[i..]` appended to `acc`; the first failing item
/// decides the error.
pub open spec fn items_intent_from(
    defaults: Defaults,
    source_to: Seq<char>,
    items: Seq<ConfigItem>,
    i: int,
    acc: Seq<IntentActionView>,
) -> Result<Seq<IntentActionView>, ProgramErrorView>
    decreases items.len() - i,
{
    if i >= items.len() || i < 0 {
        Ok(acc)
    } else {
        match item_intent(defaults, source_to, items[i]) {
            Ok(a) => items_intent_from(defaults, source_to, items, i + 1, acc.push(a)),
            Err(e) => Err(e),
        }
    }
}

fn intent_of_item(defaults: &Defaults, source_to: &String, item: &ConfigItem) -> (res: Result<
    IntentAction,
    ProgramError,
>)
    ensures
        match item_intent(*defaults, source_to@, *item) {
            Ok(a) => res matches Ok(r) && r@ == a,
            Err(e) => res matches Err(r) && r@ == e,
        },
{
    match item {
        ConfigItem::File(f) => {
            let options = resolve_item_options(
                defaults,
                source_to,
                f.mode,
                &f.to,
                f.mkdir,
                f.overwrite,
                f.backup_on_overwrite,
            )?;
            let as_name = match &f.as_name {
                Some(name) => name.clone(),
                None => f.file.clone(),
            };
            Ok(IntentAction::File(IntentFileAction { file: f.file.clone(), as_name, options }))
        },
        ConfigItem::Select(s) => {
            let options = resolve_item_options(
                defaults,
                source_to,
                s.mode,
                &s.to,
                s.mkdir,
                s.overwrite,
                s.backup_on_overwrite,
            )?;
            Ok(
                IntentAction::Select(
                    IntentSelectAction {
                        selection_type: s.selection_type,
                        recursive: s.recursive,
                        existing_directories_only: s.existing_directories_only,
                        exclude: copy_texts(&s.exclude),
                        options,
                    },
                ),
            )
        },
    }
}

fn intent_of_items(defaults: &Defaults, source_to: &String, items: &Vec<ConfigItem>) -> (res:
    Result<Vec<IntentAction>, ProgramError>)
    ensures
        match items_intent_from(*defaults, source_to@, items@, 0, Seq::empty()) {
            Ok(a) => res matches Ok(r) && actions_view(r@) == a,
            Err(e) => res matches Err(r) && r@ == e,
        },
{
    let mut actions: Vec<IntentAction> = Vec::new();
    let mut i: usize = 0;
    assert(actions_view(actions@) =~= Seq::<IntentActionView>::empty());
    while i < items.len()
        invariant
            i <= items.len(),
            items_intent_from(*defaults, source_to@, items@, 0, Seq::empty()) == items_intent_from(
                *defaults,
                source_to@,
                items@,
                i as int,
                actions_view(actions@),
            ),
        decreases items.len() - i,
    {
        let action = intent_of_item(defaults, source_to, &items[i])?;
        let ghost before = actions_view(actions@);
        actions.push(action);
        assert(actions_view(actions@) =~= before.push(action@));
        i += 1;
    }
    Ok(actions)
}

// ---------------------------------------------------------------------------
// The walk over the config and its includes
// ---------------------------------------------------------------------------

/// How planning stopped early: a question to ask, or an error.
pub enum IntentHalt {
    Needs(IntentRequestView),
    Failed(ProgramErrorView),
}

/// The planner's state while walking the include tree.
pub struct IntentWalk {
    /// Environment answers used so far.
    pub env_used: nat,
    /// Directory answers used so far.
    pub dirs_used: nat,
    /// The chain of include paths from the root config to the config being
    /// planned; a path met again on this chain closes a cycle.
    pub in_flight: Seq<Seq<char>>,
    /// Include paths already fully processed (or skipped as missing and
    /// optional); met again, they are skipped.
    pub seen: Seq<Seq<char>>,
    /// Names of required environment variables that are unset, in order.
    pub missing_env: Seq<Seq<char>>,
    /// Paths of required include files that could not be read, in path order.
    pub missing_files: Seq<Seq<char>>,
}

pub open spec fn env_answer(replies: IntentReplies, k: nat) -> Option<Seq<char>> {
    match replies.environment@[k as int] {
        Some(v) => Some(v@),
        None => None,
    }
}

/// Asks for an environment variable: the next environment answer, if any.
pub open spec fn ask_env(replies: IntentReplies, walk: IntentWalk, name: Seq<char>) -> Result<
    (Option<Seq<char>>, IntentWalk),
    IntentHalt,
> {
    if walk.env_used < replies.environment@.len() {
        Ok((env_answer(replies, walk.env_used), IntentWalk { env_used: walk.env_used + 1, ..walk }))
    } else {
        Err(IntentHalt::Needs(IntentRequestView::EnvironmentVariable(name)))
    }
}

/// Probes a directory: the next directory answer, if any.
pub open spec fn ask_dir(replies: IntentReplies, walk: IntentWalk, path: Seq<char>) -> Result<
    (bool, IntentWalk),
    IntentHalt,
> {
    if walk.dirs_used < replies.directories@.len() {
        Ok(
            (
                replies.directories@[walk.dirs_used as int],
                IntentWalk { dirs_used: walk.dirs_used + 1, ..walk },
            ),
        )
    } else {
        Err(IntentHalt::Needs(IntentRequestView::DirectoryProbe(path)))
    }
}

/// The directory of a source: literal paths as written; environment-backed
/// roots from the variable, recording a required variable that is unset.
pub open spec fn source_from(replies: IntentReplies, walk: IntentWalk, root: SourceRoot) -> Result<
    (Option<Seq<char>>, IntentWalk),
    IntentHalt,
> {
    match root {
        SourceRoot::Path(path) => Ok((Some(path@), walk)),
        SourceRoot::ExplicitPath { path } => Ok((Some(path@), walk)),
        SourceRoot::Environment { env, optional } => match ask_env(replies, walk, env@) {
            Err(h) => Err(h),
            Ok((Some(v), w)) => Ok((Some(v), w)),
            Ok((None, w)) => if optional {
                Ok((None, w))
            } else {
                Ok((None, IntentWalk { missing_env: sorted_insert(w.missing_env, env@, false), ..w }))
            },
        },
    }
}

/// Whether the guard of a source holds, probing the destination (`to_exists`)
/// or the named directory, both with `~` expanded.
pub open spec fn guard_holds(
    replies: IntentReplies,
    walk: IntentWalk,
    guard: Option<Guard>,
    source_to: Seq<char>,
    home: Seq<char>,
) -> Result<(bool, IntentWalk), IntentHalt> {
    match guard {
        None => Ok((true, walk)),
        Some(Guard::ToExists) => ask_dir(replies, walk, expand_home_path(source_to, home)),
        Some(Guard::DirectoryExists(path)) => ask_dir(replies, walk, expand_home_path(path@, home)),
    }
}

/// The intent of one source of `config`: `None` when its root is an unset
/// variable or its guard does not hold.
pub open spec fn source_intent(
    replies: IntentReplies,
    walk: IntentWalk,
    config: Config,
    source: Source,
    home: Seq<char>,
) -> Result<(Option<IntentSourceView>, IntentWalk), IntentHalt> {
    match source_from(replies, walk, source.from) {
        Err(h) => Err(h),
        Ok((None, w)) => Ok((None, w)),
        Ok((Some(from), w)) => {
            let source_to = option_text(source.to, config.defaults.to@);
            match guard_holds(replies, w, source.guard, source_to, home) {
                Err(h) => Err(h),
                Ok((false, w2)) => Ok((None, w2)),
                Ok((true, w2)) => match items_intent_from(
                    config.defaults,
                    source_to,
                    source.configs@,
                    0,
                    Seq::empty(),
                ) {
                    Err(e) => Err(IntentHalt::Failed(e)),
                    Ok(actions) => Ok((Some(IntentSourceView { from, actions }), w2)),
                },
            }
        },
    }
}

/// The intents of the sources `config.sources[k..]`, appended to `acc`.
pub open spec fn own_sources_from(
    replies: IntentReplies,
    walk: IntentWalk,
    config: Config,
    home: Seq<char>,
    k: int,
    acc: Seq<IntentSourceView>,
) -> Result<(Seq<IntentSourceView>, IntentWalk), IntentHalt>
    decreases config.sources@.len() - k,
{
    if k >= config.sources@.len() || k < 0 {
        Ok((acc, walk))
    } else {
        match source_intent(replies, walk, config, config.sources@[k], home) {
            Err(h) => Err(h),
            Ok((None, w)) => own_sources_from(replies, w, config, home, k + 1, acc),
            Ok((Some(s), w)) => own_sources_from(replies, w, config, home, k + 1, acc.push(s)),
        }
    }
}

/// The path an include refers to: absolute (after `~` expansion) as is,
/// relative against the directory of the declaring config file.
pub open spec fn include_path(path: Seq<char>, config_path: Seq<char>, home: Seq<char>) -> Seq<
    char,
> {
    let expanded = expand_home_path(path, home);
    if is_absolute_path(expanded) {
        expanded
    } else {
        match path_parent(config_path) {
            Some(parent) => path_join(parent, expanded),
            None => expanded,
        }
    }
}

/// The path and optionality of an include; `None` when it is
/// environment-backed and the variable is unset (recording a required one).
pub open spec fn include_target(
    replies: IntentReplies,
    walk: IntentWalk,
    entry: Include,
    config_path: Seq<char>,
    home: Seq<char>,
) -> Result<(Option<(Seq<char>, bool)>, IntentWalk), IntentHalt> {
    match entry {
        Include::Path { path, optional } => Ok(
            (Some((include_path(path@, config_path, home), optional)), walk),
        ),
        Include::Environment { env, optional } => match ask_env(replies, walk, env@) {
            Err(h) => Err(h),
            Ok((Some(v), w)) => Ok((Some((v, optional)), w)),
            Ok((None, w)) => if optional {
                Ok((None, w))
            } else {
                Ok((None, IntentWalk { missing_env: sorted_insert(w.missing_env, env@, false), ..w }))
            },
        },
    }
}

/// Whether the list holds the same path as `path` (see [`same_path_spec`]).
pub open spec fn holds_path(list: Seq<Seq<char>>, path: Seq<char>) -> bool {
    exists|k: int| 0 <= k < list.len() && same_path_spec(#[trigger] list[k], path)
}

/// The first position on the chain of the same path as `path`, if any.
pub open spec fn chain_position(chain: Seq<Seq<char>>, path: Seq<char>) -> Option<int>
    decreases chain.len(),
{
    if chain.len() == 0 {
        None
    } else {
        match chain_position(chain.drop_last(), path) {
            Some(i) => Some(i),
            None => if same_path_spec(chain.last(), path) {
                Some(chain.len() - 1)
            } else {
                None
            },
        }
    }
}

/// A measure of the config answers left after `used` of them.
pub open spec fn configs_left(replies: IntentReplies, used: nat) -> nat {
    if used <= replies.configs@.len() {
        (replies.configs@.len() - used) as nat
    } else {
        0
    }
}

/// Plans one config: its own sources first, then the sources of each
/// include, depth first, in declaration order. `used` config answers have
/// been taken before; the result carries how many more this config took.
pub open spec fn plan_config(
    replies: IntentReplies,
    walk: IntentWalk,
    config: Config,
    config_path: Seq<char>,
    home: Seq<char>,
    used: nat,
) -> Result<(Seq<IntentSourceView>, IntentWalk, nat), IntentHalt>
    decreases configs_left(replies, used), config.includes@.len() + 1,
{
    match own_sources_from(replies, walk, config, home, 0, Seq::empty()) {
        Err(h) => Err(h),
        Ok((own, w)) => includes_from(replies, w, config, config_path, home, used, 0, own, 0),
    }
}

/// Plans the includes `config.includes[j..]`, appending their sources to
/// `acc`; `taken` config answers were taken by earlier includes of this
/// config.
pub open spec fn includes_from(
    replies: IntentReplies,
    walk: IntentWalk,
    config: Config,
    config_path: Seq<char>,
    home: Seq<char>,
    used: nat,
    j: int,
    acc: Seq<IntentSourceView>,
    taken: nat,
) -> Result<(Seq<IntentSourceView>, IntentWalk, nat), IntentHalt>
    decreases configs_left(replies, used + taken), config.includes@.len() - j,
{
    if j >= config.includes@.len() || j < 0 {
        Ok((acc, walk, taken))
    } else {
        match include_target(replies, walk, config.includes@[j], config_path, home) {
            Err(h) => Err(h),
            Ok((None, w)) => includes_from(
                replies,
                w,
                config,
                config_path,
                home,
                used,
                j + 1,
                acc,
                taken,
            ),
            Ok((Some((path, optional)), w)) => if holds_path(w.seen, path) {
                includes_from(replies, w, config, config_path, home, used, j + 1, acc, taken)
            } else if chain_position(w.in_flight, path) is Some {
                Err(
                    IntentHalt::Failed(
                        ProgramErrorView::IncludeCycle {
                            cycle: w.in_flight.skip(chain_position(w.in_flight, path)->0).push(
                                path,
                            ),
                        },
                    ),
                )
            } else if used + taken >= replies.configs@.len() {
                Err(IntentHalt::Needs(IntentRequestView::ConfigFile(path)))
            } else {
                match replies.configs@[(used + taken) as int] {
                    Err(ProgramError::ConfigurationReadFailed { .. }) => if optional {
                        includes_from(
                            replies,
                            IntentWalk { seen: w.seen.push(path), ..w },
                            config,
                            config_path,
                            home,
                            used,
                            j + 1,
                            acc,
                            taken + 1,
                        )
                    } else {
                        includes_from(
                            replies,
                            IntentWalk {
                                missing_files: sorted_insert(w.missing_files, path, true),
                                ..w
                            },
                            config,
                            config_path,
                            home,
                            used,
                            j + 1,
                            acc,
                            taken + 1,
                        )
                    },
                    Err(e) => Err(IntentHalt::Failed(e@)),
                    Ok(loaded) => match plan_config(
                        replies,
                        IntentWalk { in_flight: w.in_flight.push(path), ..w },
                        loaded.config,
                        loaded.path@,
                        home,
                        used + taken + 1,
                    ) {
                        Err(h) => Err(h),
                        Ok((sub, w2, sub_taken)) => includes_from(
                            replies,
                            IntentWalk { in_flight: w.in_flight, seen: w2.seen.push(path), ..w2 },
                            config,
                            config_path,
                            home,
                            used,
                            j + 1,
                            acc + sub,
                            taken + 1 + sub_taken,
                        ),
                    },
                }
            }
        }
    }
}

/// The walk state at the start: the root config path seeds the chain so
/// that a config including itself is caught.
pub open spec fn initial_walk(root_path: Seq<char>) -> IntentWalk {
    IntentWalk {
        env_used: 0,
        dirs_used: 0,
        in_flight: seq![root_path],
        seen: Seq::empty(),
        missing_env: Seq::empty(),
        missing_files: Seq::empty(),
    }
}

/// Intent planning of `loaded` against the answers in `replies`.
///
/// Unset required variables and unreadable required includes are collected
/// over the whole include tree and reported together, variables first; an
/// include cycle, an invalid item or an include that fails to parse stops
/// planning at once.
pub open spec fn intent_planning(loaded: LoadedConfig, home: Seq<char>, replies: IntentReplies) -> IntentProgressView {
    match plan_config(replies, initial_walk(loaded.path@), loaded.config, loaded.path@, home, 0) {
        Err(IntentHalt::Needs(r)) => IntentProgressView::Needs(r),
        Err(IntentHalt::Failed(e)) => IntentProgressView::Finished(Err(e)),
        Ok((sources, w, _)) => if w.missing_env.len() > 0 {
            IntentProgressView::Finished(
                Err(ProgramErrorView::MissingEnvironment { vars: w.missing_env }),
            )
        } else if w.missing_files.len() > 0 {
            IntentProgressView::Finished(
                Err(ProgramErrorView::IncludeNotFound { paths: w.missing_files }),
            )
        } else {
            IntentProgressView::Finished(
                Ok(IntentPlanView { repository: loaded.config.repository@, sources }),
            )
        },
    }
}

// ---------------------------------------------------------------------------
// The walk, executed
// ---------------------------------------------------------------------------

enum Halt {
    Needs(IntentRequest),
    Failed(ProgramError),
}

impl View for Halt {
    type V = IntentHalt;

    closed spec fn view(&self) -> IntentHalt {
        match self {
            Halt::Needs(r) => IntentHalt::Needs(r@),
            Halt::Failed(e) => IntentHalt::Failed(e@),
        }
    }
}

struct Walker {
    env_used: usize,
    dirs_used: usize,
    configs_used: usize,
    in_flight: Vec<String>,
    seen: Vec<String>,
    missing_env: Vec<String>,
    missing_files: Vec<String>,
}

impl View for Walker {
    type V = IntentWalk;

    closed spec fn view(&self) -> IntentWalk {
        IntentWalk {
            env_used: self.env_used as nat,
            dirs_used: self.dirs_used as nat,
            in_flight: texts_view(self.in_flight@),
            seen: texts_view(self.seen@),
            missing_env: texts_view(self.missing_env@),
            missing_files: texts_view(self.missing_files@),
        }
    }
}

fn contains_path(list: &Vec<String>, item: &String) -> (res: bool)
    ensures
        res == holds_path(texts_view(list@), item@),
{
    let mut i: usize = 0;
    while i < list.len()
        invariant
            i <= list.len(),
            forall|k: int| 0 <= k < i ==> !same_path_spec(#[trigger] texts_view(list@)[k], item@),
        decreases list.len() - i,
    {
        if same_path(&list[i], item) {
            assert(same_path_spec(texts_view(list@)[i as int], item@));
            return true;
        }
        i += 1;
    }
    false
}

fn position_in_chain(chain: &Vec<String>, item: &String) -> (res: Option<usize>)
    ensures
        match chain_position(texts_view(chain@), item@) {
            Some(i) => res matches Some(r) && r as int == i,
            None => res is None,
        },
        res matches Some(i) ==> i < chain@.len(),
{
    let mut i: usize = 0;
    while i < chain.len()
        invariant
            i <= chain.len(),
            chain_position(texts_view(chain@).take(i as int), item@) is None,
        decreases chain.len() - i,
    {
        assert(texts_view(chain@).take(i as int + 1).drop_last() == texts_view(chain@).take(i as int));
        if same_path(&chain[i], item) {
            assert(chain_position(texts_view(chain@).take(i as int + 1), item@) == Some(i as int));
            proof {
                lemma_chain_position_prefix(texts_view(chain@), item@, i as int + 1);
            }
            return Some(i);
        }
        i += 1;
    }
    assert(texts_view(chain@).take(chain.len() as int) == texts_view(chain@));
    None
}

/// The first position of `path` in a chain does not change when the chain
/// is extended past it.
proof fn lemma_chain_position_prefix(chain: Seq<Seq<char>>, path: Seq<char>, n: int)
    requires
        0 <= n <= chain.len(),
        chain_position(chain.take(n), path) is Some,
    ensures
        chain_position(chain, path) == chain_position(chain.take(n), path),
    decreases chain.len() - n,
{
    if n < chain.len() {
        assert(chain.take(n + 1).drop_last() == chain.take(n));
        lemma_chain_position_prefix(chain, path, n + 1);
    } else {
        assert(chain.take(n) == chain);
    }
}

fn tail_from(list: &Vec<String>, start: usize) -> (res: Vec<String>)
    requires
        start <= list.len(),
    ensures
        res@ == list@.skip(start as int),
{
    let mut res: Vec<String> = Vec::new();
    let mut i: usize = start;
    while i < list.len()
        invariant
            start <= i <= list.len(),
            res@ == list@.subrange(start as int, i as int),
        decreases list.len() - i,
    {
        res.push(list[i].clone());
        assert(list@.subrange(start as int, i as int + 1) == list@.subrange(start as int, i as int).push(
            list@[i as int],
        ));
        i += 1;
    }
    res
}

fn ask_environment(replies: &IntentReplies, walker: &mut Walker, name: &String) -> (res: Result<
    Option<String>,
    Halt,
>)
    ensures
        match ask_env(*replies, old(walker)@, name@) {
            Ok((v, w)) => res matches Ok(r) && final(walker)@ == w && (match r {
                Some(s) => v == Some(s@),
                None => v is None,
            }),
            Err(h) => res matches Err(e) && e@ == h,
        },
        final(walker).configs_used == old(walker).configs_used,
{
    if walker.env_used < replies.environment.len() {
        let answer = match &replies.environment[walker.env_used] {
            Some(v) => Some(v.clone()),
            None => None,
        };
        walker.env_used = walker.env_used + 1;
        Ok(answer)
    } else {
        Err(Halt::Needs(IntentRequest::EnvironmentVariable(name.clone())))
    }
}

fn ask_directory(replies: &IntentReplies, walker: &mut Walker, path: String) -> (res: Result<
    bool,
    Halt,
>)
    ensures
        match ask_dir(*replies, old(walker)@, path@) {
            Ok((v, w)) => res == Ok::<bool, Halt>(v) && final(walker)@ == w,
            Err(h) => res matches Err(e) && e@ == h,
        },
        final(walker).configs_used == old(walker).configs_used,
{
    if walker.dirs_used < replies.directories.len() {
        let answer = replies.directories[walker.dirs_used];
        walker.dirs_used = walker.dirs_used + 1;
        Ok(answer)
    } else {
        Err(Halt::Needs(IntentRequest::DirectoryProbe(path)))
    }
}

fn record_missing_env(walker: &mut Walker, name: &String)
    ensures
        final(walker)@ == (IntentWalk {
            missing_env: sorted_insert(old(walker)@.missing_env, name@, false),
            ..old(walker)@
        }),
        final(walker).configs_used == old(walker).configs_used,
{
    insert_sorted_text(&mut walker.missing_env, name.clone(), false);
}

fn resolve_source_from(replies: &IntentReplies, walker: &mut Walker, root: &SourceRoot) -> (res:
    Result<Option<String>, Halt>)
    ensures
        match source_from(*replies, old(walker)@, *root) {
            Ok((v, w)) => res matches Ok(r) && final(walker)@ == w && (match r {
                Some(s) => v == Some(s@),
                None => v is None,
            }),
            Err(h) => res matches Err(e) && e@ == h,
        },
        final(walker).configs_used == old(walker).configs_used,
{
    match root {
        SourceRoot::Path(path) => Ok(Some(path.clone())),
        SourceRoot::ExplicitPath { path } => Ok(Some(path.clone())),
        SourceRoot::Environment { env, optional } => {
            match ask_environment(replies, walker, env)? {
                Some(v) => Ok(Some(v)),
                None => {
                    if !*optional {
                        record_missing_env(walker, env);
                    }
                    Ok(None)
                },
            }
        },
    }
}

fn check_guard(
    replies: &IntentReplies,
    walker: &mut Walker,
    guard: &Option<Guard>,
    source_to: &String,
    home: &String,
) -> (res: Result<bool, Halt>)
    ensures
        match guard_holds(*replies, old(walker)@, *guard, source_to@, home@) {
            Ok((v, w)) => res == Ok::<bool, Halt>(v) && final(walker)@ == w,
            Err(h) => res matches Err(e) && e@ == h,
        },
        final(walker).configs_used == old(walker).configs_used,
{
    match guard {
        None => Ok(true),
        Some(Guard::ToExists) => {
            let expanded = expand_home_prefixed_or_literal_path(source_to, home);
            ask_directory(replies, walker, expanded)
        },
        Some(Guard::DirectoryExists(path)) => {
            let expanded = expand_home_prefixed_or_literal_path(path, home);
            ask_directory(replies, walker, expanded)
        },
    }
}

fn plan_source(
    replies: &IntentReplies,
    walker: &mut Walker,
    config: &Config,
    source: &Source,
    home: &String,
) -> (res: Result<Option<IntentSource>, Halt>)
    ensures
        match source_intent(*replies, old(walker)@, *config, *source, home@) {
            Ok((v, w)) => res matches Ok(r) && final(walker)@ == w && (match r {
                Some(s) => v == Some(s@),
                None => v is None,
            }),
            Err(h) => res matches Err(e) && e@ == h,
        },
        final(walker).configs_used == old(walker).configs_used,
{
    let from = match resolve_source_from(replies, walker, &source.from)? {
        Some(f) => f,
        None => return Ok(None),
    };
    let source_to = match &source.to {
        Some(t) => t.clone(),
        None => config.defaults.to.clone(),
    };
    if !check_guard(replies, walker, &source.guard, &source_to, home)? {
        return Ok(None);
    }
    match intent_of_items(&config.defaults, &source_to, &source.configs) {
        Ok(actions) => Ok(Some(IntentSource { from, actions })),
        Err(e) => Err(Halt::Failed(e)),
    }
}

fn plan_own_sources(replies: &IntentReplies, walker: &mut Walker, config: &Config, home: &String) -> (res:
    Result<Vec<IntentSource>, Halt>)
    ensures
        match own_sources_from(*replies, old(walker)@, *config, home@, 0, Seq::empty()) {
            Ok((v, w)) => res matches Ok(r) && final(walker)@ == w && sources_view(r@) == v,
            Err(h) => res matches Err(e) && e@ == h,
        },
        final(walker).configs_used == old(walker).configs_used,
{
    let mut planned: Vec<IntentSource> = Vec::new();
    let mut k: usize = 0;
    assert(sources_view(planned@) =~= Seq::<IntentSourceView>::empty());
    while k < config.sources.len()
        invariant
            k <= config.sources.len(),
            walker.configs_used == old(walker).configs_used,
            own_sources_from(*replies, old(walker)@, *config, home@, 0, Seq::empty())
                == own_sources_from(
                *replies,
                walker@,
                *config,
                home@,
                k as int,
                sources_view(planned@),
            ),
        decreases config.sources.len() - k,
    {
        match plan_source(replies, walker, config, &config.sources[k], home)? {
            Some(s) => {
                let ghost before = sources_view(planned@);
                planned.push(s);
                assert(sources_view(planned@) =~= before.push(s@));
            },
            None => {},
        }
        k += 1;
    }
    Ok(planned)
}

fn resolve_include_path(path: &String, current_config_path: &String, home_directory: &String) -> (res:
    String)
    ensures
        res@ == include_path(path@, current_config_path@, home_directory@),
{
    let expanded = expand_home_prefixed_or_literal_path(path, home_directory);
    if is_absolute(&expanded) {
        return expanded;
    }
    match parent_path(current_config_path) {
        Some(parent) => join_path(&parent, &expanded),
        None => expanded,
    }
}

fn resolve_include_target(
    replies: &IntentReplies,
    walker: &mut Walker,
    entry: &Include,
    config_path: &String,
    home: &String,
) -> (res: Result<Option<(String, bool)>, Halt>)
    ensures
        match include_target(*replies, old(walker)@, *entry, config_path@, home@) {
            Ok((v, w)) => res matches Ok(r) && final(walker)@ == w && (match r {
                Some((p, o)) => v == Some((p@, o)),
                None => v is None,
            }),
            Err(h) => res matches Err(e) && e@ == h,
        },
        final(walker).configs_used == old(walker).configs_used,
{
    match entry {
        Include::Path { path, optional } => Ok(
            Some((resolve_include_path(path, config_path, home), *optional)),
        ),
        Include::Environment { env, optional } => {
            match ask_environment(replies, walker, env)? {
                Some(v) => Ok(Some((v, *optional))),
                None => {
                    if !*optional {
                        record_missing_env(walker, env);
                    }
                    Ok(None)
                },
            }
        },
    }
}

fn plan_config_walk(
    replies: &IntentReplies,
    walker: &mut Walker,
    config: &Config,
    config_path: &String,
    home: &String,
) -> (res: Result<Vec<IntentSource>, Halt>)
    requires
        old(walker).configs_used <= replies.configs@.len(),
    ensures
        match plan_config(
            *replies,
            old(walker)@,
            *config,
            config_path@,
            home@,
            old(walker).configs_used as nat,
        ) {
            Ok((v, w, taken)) => res matches Ok(r) && final(walker)@ == w && sources_view(r@) == v
                && final(walker).configs_used == old(walker).configs_used + taken,
            Err(h) => res matches Err(e) && e@ == h,
        },
        final(walker).configs_used <= replies.configs@.len(),
    decreases replies.configs@.len() - old(walker).configs_used, config.includes@.len() + 1,
{
    let used = walker.configs_used;
    let mut planned = plan_own_sources(replies, walker, config, home)?;
    let ghost own = sources_view(planned@);
    let mut j: usize = 0;
    let mut taken: usize = 0;
    while j < config.includes.len()
        invariant
            j <= config.includes.len(),
            used == old(walker).configs_used,
            walker.configs_used == used + taken,
            walker.configs_used <= replies.configs@.len(),
            plan_config(*replies, old(walker)@, *config, config_path@, home@, used as nat)
                == includes_from(
                *replies,
                walker@,
                *config,
                config_path@,
                home@,
                used as nat,
                j as int,
                sources_view(planned@),
                taken as nat,
            ),
        decreases replies.configs@.len() - walker.configs_used, config.includes@.len() - j,
    {
        let ghost w0 = walker@;
        let ghost acc0 = sources_view(planned@);
        let ghost t0 = taken as nat;
        let target = resolve_include_target(
            replies,
            walker,
            &config.includes[j],
            config_path,
            home,
        )?;
        let (path, optional) = match target {
            Some(t) => t,
            None => {
                j += 1;
                continue;
            },
        };
        if contains_path(&walker.seen, &path) {
            j += 1;
            continue;
        }
        match position_in_chain(&walker.in_flight, &path) {
            Some(start) => {
                let mut cycle = tail_from(&walker.in_flight, start);
                cycle.push(path);
                assert(texts_view(cycle@) =~= texts_view(walker.in_flight@).skip(start as int).push(
                    path@,
                ));
                return Err(Halt::Failed(ProgramError::IncludeCycle { cycle }));
            },
            None => {},
        }
        if walker.configs_used >= replies.configs.len() {
            return Err(Halt::Needs(IntentRequest::ConfigFile(path)));
        }
        let index = walker.configs_used;
        walker.configs_used = walker.configs_used + 1;
        match &replies.configs[index] {
            Err(ProgramError::ConfigurationReadFailed { .. }) => {
                if optional {
                    let ghost before = walker.seen@;
                    walker.seen.push(path);
                    assert(texts_view(walker.seen@) =~= texts_view(before).push(
                        texts_view(walker.seen@).last(),
                    ));
                } else {
                    insert_sorted_text(&mut walker.missing_files, path, true);
                }
                taken = taken + 1;
                assert(includes_from(*replies, w0, *config, config_path@, home@, used as nat, j as int, acc0, t0)
                    == includes_from(*replies, walker@, *config, config_path@, home@, used as nat, j + 1, sources_view(planned@), taken as nat));
            },
            Err(e) => {
                return Err(Halt::Failed(e.clone()));
            },
            Ok(loaded) => {
                let chain = copy_texts(&walker.in_flight);
                walker.in_flight.push(path.clone());
                assert(texts_view(walker.in_flight@) =~= texts_view(chain@).push(path@));
                let sub = plan_config_walk(replies, walker, &loaded.config, &loaded.path, home)?;
                walker.in_flight = chain;
                let ghost seen_before = walker.seen@;
                walker.seen.push(path);
                assert(texts_view(walker.seen@) =~= texts_view(seen_before).push(
                    texts_view(walker.seen@).last(),
                ));
                let ghost planned_before = sources_view(planned@);
                let ghost sub_view = sources_view(sub@);
                let mut sub = sub;
                planned.append(&mut sub);
                assert(sources_view(planned@) =~= planned_before + sub_view);
                taken = walker.configs_used - used;
                assert(includes_from(*replies, w0, *config, config_path@, home@, used as nat, j as int, acc0, t0)
                    == includes_from(*replies, walker@, *config, config_path@, home@, used as nat, j + 1, sources_view(planned@), taken as nat));
            },
        }
        j += 1;
    }
    Ok(planned)
}

/// Intent planning of `loaded_config` against the answers gathered so far.
///
/// Returns [`IntentProgress::Needs`] with the next question while an answer
/// is missing from `replies`, and the outcome of planning once all answers
/// it needs are there.
pub fn derive_intent_plan(loaded_config: &LoadedConfig, home_directory: &String, replies: &IntentReplies) -> (res:
    IntentProgress)
    ensures
        res@ == intent_planning(*loaded_config, home_directory@, *replies),
{
    let mut walker = Walker {
        env_used: 0,
        dirs_used: 0,
        configs_used: 0,
        in_flight: vec![loaded_config.path.clone()],
        seen: Vec::new(),
        missing_env: Vec::new(),
        missing_files: Vec::new(),
    };
    assert(walker@ =~= initial_walk(loaded_config.path@)) by {
        assert(texts_view(walker.in_flight@) =~= seq![loaded_config.path@]);
        assert(texts_view(walker.seen@) =~= Seq::<Seq<char>>::empty());
        assert(texts_view(walker.missing_env@) =~= Seq::<Seq<char>>::empty());
        assert(texts_view(walker.missing_files@) =~= Seq::<Seq<char>>::empty());
    }
    let planned = plan_config_walk(
        replies,
        &mut walker,
        &loaded_config.config,
        &loaded_config.path,
        home_directory,
    );
    match planned {
        Err(Halt::Needs(r)) => IntentProgress::Needs(r),
        Err(Halt::Failed(e)) => IntentProgress::Finished(Err(e)),
        Ok(sources) => {
            if walker.missing_env.len() > 0 {
                IntentProgress::Finished(
                    Err(ProgramError::MissingEnvironment { vars: walker.missing_env }),
                )
            } else if walker.missing_files.len() > 0 {
                IntentProgress::Finished(
                    Err(ProgramError::IncludeNotFound { paths: walker.missing_files }),
                )
            } else {
                IntentProgress::Finished(
                    Ok(IntentPlan { repository: loaded_config.config.repository.clone(), sources }),
                )
            }
        },
    }
}


// ---------------------------------------------------------------------------
// Laws of intent planning
// ---------------------------------------------------------------------------

/// The errors planning stops with by itself: an invalid item, or an include
/// cycle, reported from the repeated path back to the same path.
pub open spec fn planning_failure(error: ProgramErrorView) -> bool {
    match error {
        ProgramErrorView::InvalidConfiguration { .. } => true,
        ProgramErrorView::IncludeCycle { cycle } => cycle.len() >= 2 && same_path_spec(
            cycle[0],
            cycle.last(),
        ),
        _ => false,
    }
}

pub open spec fn halt_well_formed(halt: IntentHalt) -> bool {
    match halt {
        IntentHalt::Needs(_) => true,
        IntentHalt::Failed(e) => planning_failure(e),
    }
}

/// The names collected so far are each in order and held once.
pub open spec fn walk_sorted(walk: IntentWalk) -> bool {
    strictly_sorted(walk.missing_env, false) && strictly_sorted(walk.missing_files, true)
}

/// Every failed config answer is what loading a file gives: the file could
/// not be read, or its content is invalid.
pub open spec fn config_answers_are_load_results(replies: IntentReplies) -> bool {
    forall|k: int|
        0 <= k < replies.configs@.len() ==> match #[trigger] replies.configs@[k] {
            Err(e) => e is ConfigurationReadFailed || e is InvalidConfiguration,
            Ok(_) => true,
        }
}

proof fn lemma_items_intent_error(
    defaults: Defaults,
    source_to: Seq<char>,
    items: Seq<ConfigItem>,
    i: int,
    acc: Seq<IntentActionView>,
)
    ensures
        items_intent_from(defaults, source_to, items, i, acc) matches Err(e) ==> e is InvalidConfiguration,
    decreases items.len() - i,
{
    if i >= items.len() || i < 0 {
    } else {
        match item_intent(defaults, source_to, items[i]) {
            Ok(a) => lemma_items_intent_error(defaults, source_to, items, i + 1, acc.push(a)),
            Err(e) => {},
        }
    }
}

proof fn lemma_source_intent_walk(
    replies: IntentReplies,
    walk: IntentWalk,
    config: Config,
    source: Source,
    home: Seq<char>,
)
    requires
        walk_sorted(walk),
    ensures
        match source_intent(replies, walk, config, source, home) {
            Ok((_, w)) => walk_sorted(w),
            Err(h) => halt_well_formed(h),
        },
{
    if let SourceRoot::Environment { env, optional } = source.from {
        lemma_sorted_insert(walk.missing_env, env@, false);
    }
    match source_from(replies, walk, source.from) {
        Ok((Some(from), w)) => {
            let source_to = option_text(source.to, config.defaults.to@);
            lemma_items_intent_error(config.defaults, source_to, source.configs@, 0, Seq::empty());
        },
        _ => {},
    }
}

proof fn lemma_own_sources_walk(
    replies: IntentReplies,
    walk: IntentWalk,
    config: Config,
    home: Seq<char>,
    k: int,
    acc: Seq<IntentSourceView>,
)
    requires
        walk_sorted(walk),
    ensures
        match own_sources_from(replies, walk, config, home, k, acc) {
            Ok((_, w)) => walk_sorted(w),
            Err(h) => halt_well_formed(h),
        },
    decreases config.sources@.len() - k,
{
    if k >= config.sources@.len() || k < 0 {
    } else {
        lemma_source_intent_walk(replies, walk, config, config.sources@[k], home);
        match source_intent(replies, walk, config, config.sources@[k], home) {
            Err(h) => {},
            Ok((None, w)) => lemma_own_sources_walk(replies, w, config, home, k + 1, acc),
            Ok((Some(s), w)) => lemma_own_sources_walk(replies, w, config, home, k + 1, acc.push(s)),
        }
    }
}

proof fn lemma_chain_position_found(chain: Seq<Seq<char>>, path: Seq<char>)
    ensures
        chain_position(chain, path) matches Some(i) ==> 0 <= i < chain.len() && same_path_spec(
            chain[i],
            path,
        ),
    decreases chain.len(),
{
    if chain.len() > 0 {
        lemma_chain_position_found(chain.drop_last(), path);
    }
}

proof fn lemma_plan_config_walk(
    replies: IntentReplies,
    walk: IntentWalk,
    config: Config,
    config_path: Seq<char>,
    home: Seq<char>,
    used: nat,
)
    requires
        walk_sorted(walk),
        config_answers_are_load_results(replies),
    ensures
        match plan_config(replies, walk, config, config_path, home, used) {
            Ok((_, w, _)) => walk_sorted(w),
            Err(h) => halt_well_formed(h),
        },
    decreases configs_left(replies, used), config.includes@.len() + 1,
{
    lemma_own_sources_walk(replies, walk, config, home, 0, Seq::empty());
    match own_sources_from(replies, walk, config, home, 0, Seq::empty()) {
        Err(h) => {},
        Ok((own, w)) => lemma_includes_walk(replies, w, config, config_path, home, used, 0, own, 0),
    }
}

proof fn lemma_includes_walk(
    replies: IntentReplies,
    walk: IntentWalk,
    config: Config,
    config_path: Seq<char>,
    home: Seq<char>,
    used: nat,
    j: int,
    acc: Seq<IntentSourceView>,
    taken: nat,
)
    requires
        walk_sorted(walk),
        config_answers_are_load_results(replies),
    ensures
        match includes_from(replies, walk, config, config_path, home, used, j, acc, taken) {
            Ok((_, w, _)) => walk_sorted(w),
            Err(h) => halt_well_formed(h),
        },
    decreases configs_left(replies, used + taken), config.includes@.len() - j,
{
    if j >= config.includes@.len() || j < 0 {
    } else {
        if let Include::Environment { env, optional } = config.includes@[j] {
            lemma_sorted_insert(walk.missing_env, env@, false);
        }
        match include_target(replies, walk, config.includes@[j], config_path, home) {
            Err(h) => {},
            Ok((None, w)) => lemma_includes_walk(
                replies,
                w,
                config,
                config_path,
                home,
                used,
                j + 1,
                acc,
                taken,
            ),
            Ok((Some((path, optional)), w)) => if holds_path(w.seen, path) {
                lemma_includes_walk(replies, w, config, config_path, home, used, j + 1, acc, taken);
            } else if chain_position(w.in_flight, path) is Some {
                lemma_chain_position_found(w.in_flight, path);
                let i = chain_position(w.in_flight, path)->0;
                let cycle = w.in_flight.skip(i).push(path);
                assert(cycle[0] == w.in_flight[i]);
            } else if used + taken >= replies.configs@.len() {
            } else {
                let answer = replies.configs@[(used + taken) as int];
                assert(match answer {
                    Err(e) => e is ConfigurationReadFailed || e is InvalidConfiguration,
                    Ok(_) => true,
                });
                match answer {
                    Err(ProgramError::ConfigurationReadFailed { .. }) => if optional {
                        lemma_includes_walk(
                            replies,
                            IntentWalk { seen: w.seen.push(path), ..w },
                            config,
                            config_path,
                            home,
                            used,
                            j + 1,
                            acc,
                            taken + 1,
                        );
                    } else {
                        lemma_sorted_insert(w.missing_files, path, true);
                        lemma_includes_walk(
                            replies,
                            IntentWalk {
                                missing_files: sorted_insert(w.missing_files, path, true),
                                ..w
                            },
                            config,
                            config_path,
                            home,
                            used,
                            j + 1,
                            acc,
                            taken + 1,
                        );
                    },
                    Err(e) => {},
                    Ok(loaded) => {
                        lemma_plan_config_walk(
                            replies,
                            IntentWalk { in_flight: w.in_flight.push(path), ..w },
                            loaded.config,
                            loaded.path@,
                            home,
                            used + taken + 1,
                        );
                        match plan_config(
                            replies,
                            IntentWalk { in_flight: w.in_flight.push(path), ..w },
                            loaded.config,
                            loaded.path@,
                            home,
                            used + taken + 1,
                        ) {
                            Err(h) => {},
                            Ok((sub, w2, sub_taken)) => lemma_includes_walk(
                                replies,
                                IntentWalk { in_flight: w.in_flight, seen: w2.seen.push(path), ..w2 },
                                config,
                                config_path,
                                home,
                                used,
                                j + 1,
                                acc + sub,
                                taken + 1 + sub_taken,
                            ),
                        }
                    },
                }
            },
        }
    }
}

/// What planning reports when it fails: the unset required variables in
/// name order and each once, the unreadable required includes in path order
/// and each once, or an include cycle that starts and ends at the same
/// path; no other error comes from planning itself.
pub proof fn lemma_intent_planning_failures(loaded: LoadedConfig, home: Seq<char>, replies: IntentReplies)
    requires
        config_answers_are_load_results(replies),
    ensures
        match intent_planning(loaded, home, replies) {
            IntentProgressView::Finished(Err(ProgramErrorView::MissingEnvironment { vars })) =>
                strictly_sorted(vars, false),
            IntentProgressView::Finished(Err(ProgramErrorView::IncludeNotFound { paths })) =>
                strictly_sorted(paths, true),
            IntentProgressView::Finished(Err(e)) => planning_failure(e),
            _ => true,
        },
{
    let walk = initial_walk(loaded.path@);
    lemma_plan_config_walk(replies, walk, loaded.config, loaded.path@, home, 0);
}


proof fn lemma_plan_config_prefix(
    replies: IntentReplies,
    walk: IntentWalk,
    config: Config,
    config_path: Seq<char>,
    home: Seq<char>,
    used: nat,
)
    ensures
        plan_config(replies, walk, config, config_path, home, used) matches Ok((sources, _, _))
            ==> own_sources_from(replies, walk, config, home, 0, Seq::empty()) matches Ok((own, _))
            && own.len() <= sources.len() && sources.subrange(0, own.len() as int) == own,
    decreases configs_left(replies, used), config.includes@.len() + 1,
{
    match own_sources_from(replies, walk, config, home, 0, Seq::empty()) {
        Err(h) => {},
        Ok((own, w)) => lemma_includes_prefix(replies, w, config, config_path, home, used, 0, own, 0),
    }
}

proof fn lemma_includes_prefix(
    replies: IntentReplies,
    walk: IntentWalk,
    config: Config,
    config_path: Seq<char>,
    home: Seq<char>,
    used: nat,
    j: int,
    acc: Seq<IntentSourceView>,
    taken: nat,
)
    ensures
        includes_from(replies, walk, config, config_path, home, used, j, acc, taken) matches Ok((sources, _, _))
            ==> acc.len() <= sources.len() && sources.subrange(0, acc.len() as int) == acc,
    decreases configs_left(replies, used + taken), config.includes@.len() - j,
{
    if j >= config.includes@.len() || j < 0 {
        assert(acc.subrange(0, acc.len() as int) == acc);
    } else {
        match include_target(replies, walk, config.includes@[j], config_path, home) {
            Err(h) => {},
            Ok((None, w)) => lemma_includes_prefix(
                replies,
                w,
                config,
                config_path,
                home,
                used,
                j + 1,
                acc,
                taken,
            ),
            Ok((Some((path, optional)), w)) => if holds_path(w.seen, path) {
                lemma_includes_prefix(replies, w, config, config_path, home, used, j + 1, acc, taken);
            } else if chain_position(w.in_flight, path) is Some {
            } else if used + taken >= replies.configs@.len() {
            } else {
                match replies.configs@[(used + taken) as int] {
                    Err(ProgramError::ConfigurationReadFailed { .. }) => if optional {
                        lemma_includes_prefix(
                            replies,
                            IntentWalk { seen: w.seen.push(path), ..w },
                            config,
                            config_path,
                            home,
                            used,
                            j + 1,
                            acc,
                            taken + 1,
                        );
                    } else {
                        lemma_includes_prefix(
                            replies,
                            IntentWalk {
                                missing_files: sorted_insert(w.missing_files, path, true),
                                ..w
                            },
                            config,
                            config_path,
                            home,
                            used,
                            j + 1,
                            acc,
                            taken + 1,
                        );
                    },
                    Err(e) => {},
                    Ok(loaded) => {
                        match plan_config(
                            replies,
                            IntentWalk { in_flight: w.in_flight.push(path), ..w },
                            loaded.config,
                            loaded.path@,
                            home,
                            used + taken + 1,
                        ) {
                            Err(h) => {},
                            Ok((sub, w2, sub_taken)) => {
                                lemma_includes_prefix(
                                    replies,
                                    IntentWalk { in_flight: w.in_flight, seen: w2.seen.push(path), ..w2 },
                                    config,
                                    config_path,
                                    home,
                                    used,
                                    j + 1,
                                    acc + sub,
                                    taken + 1 + sub_taken,
                                );
                                match includes_from(
                                    replies,
                                    IntentWalk { in_flight: w.in_flight, seen: w2.seen.push(path), ..w2 },
                                    config,
                                    config_path,
                                    home,
                                    used,
                                    j + 1,
                                    acc + sub,
                                    taken + 1 + sub_taken,
                                ) {
                                    Ok((sources, _, _)) => {
                                        assert(sources.subrange(0, acc.len() as int)
                                            =~= sources.subrange(0, (acc + sub).len() as int).subrange(0, acc.len() as int));
                                        assert((acc + sub).subrange(0, acc.len() as int) =~= acc);
                                    },
                                    Err(_) => {},
                                }
                            },
                        }
                    },
                }
            },
        }
    }
}

/// Includes come after: the root config's own sources lead the plan, before
/// any source of an included config.
pub proof fn lemma_own_sources_lead(loaded: LoadedConfig, home: Seq<char>, replies: IntentReplies)
    ensures
        intent_planning(loaded, home, replies) matches IntentProgressView::Finished(Ok(plan))
            ==> own_sources_from(replies, initial_walk(loaded.path@), loaded.config, home, 0, Seq::empty())
            matches Ok((own, _)) && own.len() <= plan.sources.len()
            && plan.sources.subrange(0, own.len() as int) == own,
{
    lemma_plan_config_prefix(replies, initial_walk(loaded.path@), loaded.config, loaded.path@, home, 0);
}


// ---------------------------------------------------------------------------
// Log events of intent planning
// ---------------------------------------------------------------------------

/// The events intent planning reports once it is over: its start, with the
/// configured repository and the numbers of sources and includes; then, on
/// success, how many sources were planned.
pub open spec fn intent_log(loaded: LoadedConfig, outcome: IntentProgressView) -> Seq<LogEventView> {
    let start = event_of(
        RecordLevel::Debug,
        "gitenv::intent"@,
        "intent_plan_start"@,
        "repository="@ + loaded.config.repository@ + " sources="@ + decimal(
            loaded.config.sources@.len(),
        ) + " includes="@ + decimal(loaded.config.includes@.len()),
    );
    match outcome {
        IntentProgressView::Needs(_) => Seq::empty(),
        IntentProgressView::Finished(Err(_)) => seq![start],
        IntentProgressView::Finished(Ok(plan)) => seq![
            start,
            event_of(
                RecordLevel::Info,
                "gitenv::intent"@,
                "intent_plan_success"@,
                "sources="@ + decimal(plan.sources.len()),
            ),
        ],
    }
}

/// The events of intent planning of `loaded_config` that ended in
/// `outcome` (see [`intent_log`]).
pub fn intent_events(loaded_config: &LoadedConfig, outcome: &IntentProgress) -> (res: Vec<LogEvent>)
    ensures
        events_view(res@) == intent_log(*loaded_config, outcome@),
{
    let mut events: Vec<LogEvent> = Vec::new();
    if let IntentProgress::Needs(_) = outcome {
        assert(events_view(events@) =~= Seq::<LogEventView>::empty());
        return events;
    }
    let mut details = String::from_str("repository=");
    details.append(loaded_config.config.repository.as_str());
    details.append(labelled_count(" sources=", loaded_config.config.sources.len()).as_str());
    details.append(labelled_count(" includes=", loaded_config.config.includes.len()).as_str());
    assert(details@ =~= "repository="@ + loaded_config.config.repository@ + " sources="@ + decimal(
        loaded_config.config.sources@.len(),
    ) + " includes="@ + decimal(loaded_config.config.includes@.len()));
    let start = make_event(RecordLevel::Debug, "gitenv::intent", "intent_plan_start", details);
    let ghost start_view = start@;
    events.push(start);
    match outcome {
        IntentProgress::Finished(Ok(plan)) => {
            let success = make_event(
                RecordLevel::Info,
                "gitenv::intent",
                "intent_plan_success",
                labelled_count("sources=", plan.sources.len()),
            );
            let ghost success_view = success@;
            events.push(success);
            assert(events_view(events@) =~= seq![start_view, success_view]);
        },
        _ => {
            assert(events_view(events@) =~= seq![start_view]);
        },
    }
    events
}


// ---------------------------------------------------------------------------
// Laws of the include walk, step by step
// ---------------------------------------------------------------------------

/// An environment-backed source whose variable is unset adds no source and
/// does not stop planning: a required one has its variable recorded as
/// missing, an optional one leaves the missing variables as they were.
pub proof fn lemma_unset_source_variable(
    replies: IntentReplies,
    walk: IntentWalk,
    config: Config,
    source: Source,
    home: Seq<char>,
)
    requires
        source.from matches SourceRoot::Environment { .. },
        walk.env_used < replies.environment@.len(),
        replies.environment@[walk.env_used as int] is None,
        strictly_sorted(walk.missing_env, false),
    ensures
        source_intent(replies, walk, config, source, home) matches Ok((None, w)) && w.env_used
            == walk.env_used + 1 && w.dirs_used == walk.dirs_used && w.seen == walk.seen
            && w.in_flight == walk.in_flight && w.missing_files == walk.missing_files && (
        if source.from->optional {
            w.missing_env == walk.missing_env
        } else {
            w.missing_env.contains(source.from->env@) && walk.missing_env.to_set().subset_of(
                w.missing_env.to_set(),
            ) && strictly_sorted(w.missing_env, false)
        }),
{
    if !source.from->optional {
        lemma_sorted_insert(walk.missing_env, source.from->env@, false);
        let inserted = sorted_insert(walk.missing_env, source.from->env@, false);
        assert(inserted.to_set().contains(source.from->env@)) by {
            if exists|i: int|
                0 <= i < walk.missing_env.len() && crate::text::same_entry(
                    #[trigger] walk.missing_env[i],
                    source.from->env@,
                    false,
                ) {
                let i = choose|i: int|
                    0 <= i < walk.missing_env.len() && crate::text::same_entry(
                        #[trigger] walk.missing_env[i],
                        source.from->env@,
                        false,
                    );
                assert(walk.missing_env.to_set().contains(walk.missing_env[i]));
            }
        }
    }
}

/// An environment-backed include whose variable is unset is passed over:
/// a required one has its variable recorded as missing, an optional one
/// leaves the missing variables as they were.
pub proof fn lemma_unset_include_variable(
    replies: IntentReplies,
    walk: IntentWalk,
    entry: Include,
    config_path: Seq<char>,
    home: Seq<char>,
)
    requires
        entry matches Include::Environment { .. },
        walk.env_used < replies.environment@.len(),
        replies.environment@[walk.env_used as int] is None,
        strictly_sorted(walk.missing_env, false),
    ensures
        include_target(replies, walk, entry, config_path, home) matches Ok((None, w)) && w.env_used
            == walk.env_used + 1 && w.seen == walk.seen && w.missing_files == walk.missing_files && (
        if entry->Environment_optional {
            w.missing_env == walk.missing_env
        } else {
            w.missing_env.contains(entry->Environment_env@) && strictly_sorted(w.missing_env, false)
        }),
{
    if !entry->Environment_optional {
        lemma_sorted_insert(walk.missing_env, entry->Environment_env@, false);
        let item = entry->Environment_env@;
        let inserted = sorted_insert(walk.missing_env, item, false);
        assert(inserted.to_set().contains(item)) by {
            if exists|i: int|
                0 <= i < walk.missing_env.len() && crate::text::same_entry(
                    #[trigger] walk.missing_env[i],
                    item,
                    false,
                ) {
                let i = choose|i: int|
                    0 <= i < walk.missing_env.len() && crate::text::same_entry(
                        #[trigger] walk.missing_env[i],
                        item,
                        false,
                    );
                assert(walk.missing_env.to_set().contains(walk.missing_env[i]));
            }
        }
    }
}

/// An include that cannot be read: an optional one is marked as seen and
/// passed over, a required one is recorded as missing and planning goes on
/// with the next include; any other failure of an include, optional or
/// not, stops planning with that error.
pub proof fn lemma_unreadable_include(
    replies: IntentReplies,
    walk: IntentWalk,
    config: Config,
    config_path: Seq<char>,
    home: Seq<char>,
    used: nat,
    j: int,
    acc: Seq<IntentSourceView>,
    taken: nat,
)
    requires
        0 <= j < config.includes@.len(),
        include_target(replies, walk, config.includes@[j], config_path, home) matches Ok(
            (Some((path, _)), w),
        ) && !holds_path(w.seen, path) && chain_position(w.in_flight, path) is None,
        used + taken < replies.configs@.len(),
        replies.configs@[(used + taken) as int] is Err,
    ensures
        ({
            let (path, optional) = include_target(replies, walk, config.includes@[j], config_path, home)->Ok_0.0->Some_0;
            let w = include_target(replies, walk, config.includes@[j], config_path, home)->Ok_0.1;
            let error = replies.configs@[(used + taken) as int]->Err_0;
            includes_from(replies, walk, config, config_path, home, used, j, acc, taken) == if error is ConfigurationReadFailed {
                if optional {
                    includes_from(
                        replies,
                        IntentWalk { seen: w.seen.push(path), ..w },
                        config,
                        config_path,
                        home,
                        used,
                        j + 1,
                        acc,
                        taken + 1,
                    )
                } else {
                    includes_from(
                        replies,
                        IntentWalk { missing_files: sorted_insert(w.missing_files, path, true), ..w },
                        config,
                        config_path,
                        home,
                        used,
                        j + 1,
                        acc,
                        taken + 1,
                    )
                }
            } else {
                Err(IntentHalt::Failed(error@))
            }
        }),
{
}

/// Includes are planned depth first, in declaration order: the sources of
/// an include that is read and planned come right after those planned so
/// far, before the sources of the includes declared after it.
pub proof fn lemma_included_sources_follow(
    replies: IntentReplies,
    walk: IntentWalk,
    config: Config,
    config_path: Seq<char>,
    home: Seq<char>,
    used: nat,
    j: int,
    acc: Seq<IntentSourceView>,
    taken: nat,
)
    requires
        0 <= j < config.includes@.len(),
        include_target(replies, walk, config.includes@[j], config_path, home) matches Ok(
            (Some((path, _)), w),
        ) && !holds_path(w.seen, path) && chain_position(w.in_flight, path) is None,
        used + taken < replies.configs@.len(),
        replies.configs@[(used + taken) as int] matches Ok(loaded) && plan_config(
            replies,
            IntentWalk {
                in_flight: include_target(replies, walk, config.includes@[j], config_path, home)->Ok_0.1.in_flight.push(
                    include_target(replies, walk, config.includes@[j], config_path, home)->Ok_0.0->Some_0.0,
                ),
                ..include_target(replies, walk, config.includes@[j], config_path, home)->Ok_0.1
            },
            loaded.config,
            loaded.path@,
            home,
            used + taken + 1,
        ) is Ok,
    ensures
        ({
            let path = include_target(replies, walk, config.includes@[j], config_path, home)->Ok_0.0->Some_0.0;
            let w = include_target(replies, walk, config.includes@[j], config_path, home)->Ok_0.1;
            let loaded = replies.configs@[(used + taken) as int]->Ok_0;
            let (sub, w2, sub_taken) = plan_config(
                replies,
                IntentWalk { in_flight: w.in_flight.push(path), ..w },
                loaded.config,
                loaded.path@,
                home,
                used + taken + 1,
            )->Ok_0;
            includes_from(replies, walk, config, config_path, home, used, j, acc, taken)
                == includes_from(
                replies,
                IntentWalk { in_flight: w.in_flight, seen: w2.seen.push(path), ..w2 },
                config,
                config_path,
                home,
                used,
                j + 1,
                acc + sub,
                taken + 1 + sub_taken,
            )
        }),
{
}


// ---------------------------------------------------------------------------
// Walks that differ by one skipped include
// ---------------------------------------------------------------------------

/// A path is held by `extended` exactly when it is held by `base` or by
/// `extra`.
pub open spec fn seen_with(extended: Seq<Seq<char>>, base: Seq<Seq<char>>, extra: Seq<Seq<char>>) -> bool {
    forall|x: Seq<char>| #[trigger] holds_path(extended, x) == (holds_path(base, x) || holds_path(extra, x))
}

/// The walk with `seen` in place of its own list and `env_extra` more
/// environment answers used.
pub open spec fn shifted_walk(walk: IntentWalk, seen: Seq<Seq<char>>, env_extra: nat) -> IntentWalk {
    IntentWalk { seen, env_used: walk.env_used + env_extra, ..walk }
}

/// From environment answer `from` on, `later` answers as `earlier` does,
/// `extra` answers further on.
pub open spec fn env_shifted(earlier: IntentReplies, later: IntentReplies, from: nat, extra: nat) -> bool {
    &&& later.environment@.len() == earlier.environment@.len() + extra
    &&& forall|k: nat|
        from <= k < earlier.environment@.len() ==> env_answer(later, k + extra) == #[trigger] env_answer(
            earlier,
            k,
        )
}

/// From config answer `from` on, `later` answers as `earlier` does, `extra`
/// answers further on.
pub open spec fn configs_shifted(earlier: IntentReplies, later: IntentReplies, from: nat, extra: nat) -> bool {
    &&& later.configs@.len() == earlier.configs@.len() + extra
    &&& forall|k: int| from <= k < earlier.configs@.len() ==> later.configs@[k + extra] == #[trigger] earlier.configs@[k]
}

/// Whether planning `config` meets one of `paths` at an include whose path
/// was not seen before, before planning stops.
pub open spec fn config_meets(
    replies: IntentReplies,
    walk: IntentWalk,
    config: Config,
    config_path: Seq<char>,
    home: Seq<char>,
    used: nat,
    paths: Seq<Seq<char>>,
) -> bool
    decreases configs_left(replies, used), config.includes@.len() + 1,
{
    match own_sources_from(replies, walk, config, home, 0, Seq::empty()) {
        Err(_) => false,
        Ok((_, w)) => includes_meet(replies, w, config, config_path, home, used, 0, 0, paths),
    }
}

/// Whether planning the includes `config.includes[j..]` meets one of
/// `paths` at an include whose path was not seen before, before planning
/// stops.
pub open spec fn includes_meet(
    replies: IntentReplies,
    walk: IntentWalk,
    config: Config,
    config_path: Seq<char>,
    home: Seq<char>,
    used: nat,
    j: int,
    taken: nat,
    paths: Seq<Seq<char>>,
) -> bool
    decreases configs_left(replies, used + taken), config.includes@.len() - j,
{
    if j >= config.includes@.len() || j < 0 {
        false
    } else {
        match include_target(replies, walk, config.includes@[j], config_path, home) {
            Err(_) => false,
            Ok((None, w)) => includes_meet(replies, w, config, config_path, home, used, j + 1, taken, paths),
            Ok((Some((path, optional)), w)) => if holds_path(w.seen, path) {
                includes_meet(replies, w, config, config_path, home, used, j + 1, taken, paths)
            } else if holds_path(paths, path) {
                true
            } else if chain_position(w.in_flight, path) is Some || used + taken >= replies.configs@.len() {
                false
            } else {
                match replies.configs@[(used + taken) as int] {
                    Err(ProgramError::ConfigurationReadFailed { .. }) => if optional {
                        includes_meet(
                            replies,
                            IntentWalk { seen: w.seen.push(path), ..w },
                            config,
                            config_path,
                            home,
                            used,
                            j + 1,
                            taken + 1,
                            paths,
                        )
                    } else {
                        includes_meet(
                            replies,
                            IntentWalk { missing_files: sorted_insert(w.missing_files, path, true), ..w },
                            config,
                            config_path,
                            home,
                            used,
                            j + 1,
                            taken + 1,
                            paths,
                        )
                    },
                    Err(_) => false,
                    Ok(loaded) => {
                        let inner = IntentWalk { in_flight: w.in_flight.push(path), ..w };
                        config_meets(replies, inner, loaded.config, loaded.path@, home, used + taken + 1, paths)
                            || match plan_config(replies, inner, loaded.config, loaded.path@, home, used + taken + 1) {
                            Ok((_, w2, sub_taken)) => includes_meet(
                                replies,
                                IntentWalk { in_flight: w.in_flight, seen: w2.seen.push(path), ..w2 },
                                config,
                                config_path,
                                home,
                                used,
                                j + 1,
                                taken + 1 + sub_taken,
                                paths,
                            ),
                            Err(_) => false,
                        }
                    },
                }
            },
        }
    }
}

proof fn lemma_holds_path_push(list: Seq<Seq<char>>, item: Seq<char>, x: Seq<char>)
    ensures
        holds_path(list.push(item), x) == (holds_path(list, x) || same_path_spec(item, x)),
{
    let pushed = list.push(item);
    if holds_path(list, x) {
        let k = choose|k: int| 0 <= k < list.len() && same_path_spec(#[trigger] list[k], x);
        assert(pushed[k] == list[k]);
    }
    if same_path_spec(item, x) {
        assert(pushed[list.len() as int] == item);
    }
    if holds_path(pushed, x) {
        let k = choose|k: int| 0 <= k < pushed.len() && same_path_spec(#[trigger] pushed[k], x);
        if k < list.len() {
            assert(pushed[k] == list[k]);
        }
    }
}

proof fn lemma_holds_path_sorted_insert(list: Seq<Seq<char>>, item: Seq<char>, x: Seq<char>)
    ensures
        holds_path(list, x) || same_path_spec(item, x) ==> holds_path(sorted_insert(list, item, true), x),
    decreases list.len(),
{
    let inserted = sorted_insert(list, item, true);
    if list.len() == 0 {
        if same_path_spec(item, x) {
            assert(inserted[0] == item);
        }
    } else if same_path_spec(list[0], item) {
        if same_path_spec(item, x) {
            assert(same_path_spec(inserted[0], x));
        }
    } else if crate::text::text_less(item, list[0], true) {
        if holds_path(list, x) {
            let k = choose|k: int| 0 <= k < list.len() && same_path_spec(#[trigger] list[k], x);
            assert(inserted[k + 1] == list[k]);
        }
        if same_path_spec(item, x) {
            assert(inserted[0] == item);
        }
    } else {
        let rest = list.drop_first();
        lemma_holds_path_sorted_insert(rest, item, x);
        if holds_path(list, x) {
            let k = choose|k: int| 0 <= k < list.len() && same_path_spec(#[trigger] list[k], x);
            if k == 0 {
                assert(inserted[0] == list[0]);
            } else {
                assert(rest[k - 1] == list[k]);
            }
        }
        if holds_path(rest, x) || same_path_spec(item, x) {
            let tail = sorted_insert(rest, item, true);
            let k = choose|k: int| 0 <= k < tail.len() && same_path_spec(#[trigger] tail[k], x);
            assert(inserted[k + 1] == tail[k]);
        }
    }
}

proof fn lemma_source_intent_frame(
    replies: IntentReplies,
    walk: IntentWalk,
    config: Config,
    source: Source,
    home: Seq<char>,
)
    ensures
        source_intent(replies, walk, config, source, home) matches Ok((_, w)) ==> w.seen == walk.seen
            && w.in_flight == walk.in_flight && w.missing_files == walk.missing_files && w.env_used
            >= walk.env_used && (walk.env_used <= replies.environment@.len() ==> w.env_used
            <= replies.environment@.len()),
{
}

proof fn lemma_own_sources_frame(
    replies: IntentReplies,
    walk: IntentWalk,
    config: Config,
    home: Seq<char>,
    k: int,
    acc: Seq<IntentSourceView>,
)
    ensures
        own_sources_from(replies, walk, config, home, k, acc) matches Ok((_, w)) ==> w.seen
            == walk.seen && w.in_flight == walk.in_flight && w.missing_files == walk.missing_files
            && w.env_used >= walk.env_used && (walk.env_used <= replies.environment@.len()
            ==> w.env_used <= replies.environment@.len()),
    decreases config.sources@.len() - k,
{
    if k >= config.sources@.len() || k < 0 {
    } else {
        lemma_source_intent_frame(replies, walk, config, config.sources@[k], home);
        match source_intent(replies, walk, config, config.sources@[k], home) {
            Err(h) => {},
            Ok((None, w)) => lemma_own_sources_frame(replies, w, config, home, k + 1, acc),
            Ok((Some(s), w)) => lemma_own_sources_frame(replies, w, config, home, k + 1, acc.push(s)),
        }
    }
}

proof fn lemma_source_intent_shift(
    earlier: IntentReplies,
    later: IntentReplies,
    walk: IntentWalk,
    seen: Seq<Seq<char>>,
    env_extra: nat,
    config: Config,
    other: Config,
    source: Source,
    home: Seq<char>,
)
    requires
        later.directories@ == earlier.directories@,
        env_shifted(earlier, later, walk.env_used, env_extra),
        other.defaults == config.defaults,
    ensures
        source_intent(later, shifted_walk(walk, seen, env_extra), other, source, home) == match source_intent(
            earlier,
            walk,
            config,
            source,
            home,
        ) {
            Ok((o, w)) => Ok((o, shifted_walk(w, seen, env_extra))),
            Err(h) => Err(h),
        },
{
    if walk.env_used < earlier.environment@.len() {
        assert(env_answer(later, walk.env_used + env_extra) == env_answer(earlier, walk.env_used));
    }
}

proof fn lemma_own_sources_shift(
    earlier: IntentReplies,
    later: IntentReplies,
    walk: IntentWalk,
    seen: Seq<Seq<char>>,
    env_extra: nat,
    config: Config,
    other: Config,
    home: Seq<char>,
    k: int,
    acc: Seq<IntentSourceView>,
)
    requires
        later.directories@ == earlier.directories@,
        env_shifted(earlier, later, walk.env_used, env_extra),
        other.defaults == config.defaults,
        other.sources@ == config.sources@,
    ensures
        own_sources_from(later, shifted_walk(walk, seen, env_extra), other, home, k, acc) == match own_sources_from(
            earlier,
            walk,
            config,
            home,
            k,
            acc,
        ) {
            Ok((o, w)) => Ok((o, shifted_walk(w, seen, env_extra))),
            Err(h) => Err(h),
        },
    decreases config.sources@.len() - k,
{
    if k >= config.sources@.len() || k < 0 {
    } else {
        let source = config.sources@[k];
        lemma_source_intent_shift(earlier, later, walk, seen, env_extra, config, other, source, home);
        lemma_source_intent_frame(earlier, walk, config, source, home);
        match source_intent(earlier, walk, config, source, home) {
            Err(h) => {},
            Ok((None, w)) => lemma_own_sources_shift(
                earlier,
                later,
                w,
                seen,
                env_extra,
                config,
                other,
                home,
                k + 1,
                acc,
            ),
            Ok((Some(s), w)) => lemma_own_sources_shift(
                earlier,
                later,
                w,
                seen,
                env_extra,
                config,
                other,
                home,
                k + 1,
                acc.push(s),
            ),
        }
    }
}

proof fn lemma_include_target_shift(
    earlier: IntentReplies,
    later: IntentReplies,
    walk: IntentWalk,
    seen: Seq<Seq<char>>,
    env_extra: nat,
    entry: Include,
    config_path: Seq<char>,
    home: Seq<char>,
)
    requires
        env_shifted(earlier, later, walk.env_used, env_extra),
    ensures
        include_target(later, shifted_walk(walk, seen, env_extra), entry, config_path, home) == match include_target(
            earlier,
            walk,
            entry,
            config_path,
            home,
        ) {
            Ok((t, w)) => Ok((t, shifted_walk(w, seen, env_extra))),
            Err(h) => Err(h),
        },
        include_target(earlier, walk, entry, config_path, home) matches Ok((_, w)) ==> w.seen
            == walk.seen && w.in_flight == walk.in_flight && w.missing_files == walk.missing_files
            && w.env_used >= walk.env_used && (walk.env_used <= earlier.environment@.len()
            ==> w.env_used <= earlier.environment@.len()),
{
    if walk.env_used < earlier.environment@.len() {
        assert(env_answer(later, walk.env_used + env_extra) == env_answer(earlier, walk.env_used));
    }
}

proof fn lemma_plan_config_grows(
    replies: IntentReplies,
    walk: IntentWalk,
    config: Config,
    config_path: Seq<char>,
    home: Seq<char>,
    used: nat,
)
    ensures
        plan_config(replies, walk, config, config_path, home, used) matches Ok((_, w, t)) ==> (
        forall|x: Seq<char>| #[trigger] holds_path(walk.seen, x) ==> holds_path(w.seen, x)) && (
        forall|x: Seq<char>|
            #[trigger] holds_path(walk.missing_files, x) ==> holds_path(w.missing_files, x))
            && w.env_used >= walk.env_used && w.in_flight == walk.in_flight && (walk.env_used
            <= replies.environment@.len() ==> w.env_used <= replies.environment@.len()) && (used
            <= replies.configs@.len() ==> used + t <= replies.configs@.len()),
    decreases configs_left(replies, used), config.includes@.len() + 1,
{
    lemma_own_sources_frame(replies, walk, config, home, 0, Seq::empty());
    match own_sources_from(replies, walk, config, home, 0, Seq::empty()) {
        Err(h) => {},
        Ok((own, w)) => lemma_includes_grows(replies, w, config, config_path, home, used, 0, own, 0),
    }
}

proof fn lemma_includes_grows(
    replies: IntentReplies,
    walk: IntentWalk,
    config: Config,
    config_path: Seq<char>,
    home: Seq<char>,
    used: nat,
    j: int,
    acc: Seq<IntentSourceView>,
    taken: nat,
)
    ensures
        includes_from(replies, walk, config, config_path, home, used, j, acc, taken) matches Ok(
            (_, w, t),
        ) ==> (forall|x: Seq<char>| #[trigger] holds_path(walk.seen, x) ==> holds_path(w.seen, x))
            && (forall|x: Seq<char>|
            #[trigger] holds_path(walk.missing_files, x) ==> holds_path(w.missing_files, x))
            && w.env_used >= walk.env_used && t >= taken && w.in_flight == walk.in_flight && (
        walk.env_used <= replies.environment@.len() ==> w.env_used <= replies.environment@.len())
            && (used + taken <= replies.configs@.len() ==> used + t <= replies.configs@.len()),
    decreases configs_left(replies, used + taken), config.includes@.len() - j,
{
    if j >= config.includes@.len() || j < 0 {
    } else {
        lemma_include_target_shift(replies, replies, walk, walk.seen, 0, config.includes@[j], config_path, home);
        match include_target(replies, walk, config.includes@[j], config_path, home) {
            Err(h) => {},
            Ok((None, w)) => lemma_includes_grows(replies, w, config, config_path, home, used, j + 1, acc, taken),
            Ok((Some((path, optional)), w)) => if holds_path(w.seen, path) {
                lemma_includes_grows(replies, w, config, config_path, home, used, j + 1, acc, taken);
            } else if chain_position(w.in_flight, path) is Some {
            } else if used + taken >= replies.configs@.len() {
            } else {
                match replies.configs@[(used + taken) as int] {
                    Err(ProgramError::ConfigurationReadFailed { .. }) => if optional {
                        let next = IntentWalk { seen: w.seen.push(path), ..w };
                        lemma_includes_grows(replies, next, config, config_path, home, used, j + 1, acc, taken + 1);
                        assert forall|x: Seq<char>| holds_path(w.seen, x) implies holds_path(next.seen, x) by {
                            lemma_holds_path_push(w.seen, path, x);
                        }
                    } else {
                        let next = IntentWalk { missing_files: sorted_insert(w.missing_files, path, true), ..w };
                        lemma_includes_grows(replies, next, config, config_path, home, used, j + 1, acc, taken + 1);
                        assert forall|x: Seq<char>| holds_path(w.missing_files, x) implies holds_path(next.missing_files, x) by {
                            lemma_holds_path_sorted_insert(w.missing_files, path, x);
                        }
                    },
                    Err(e) => {},
                    Ok(loaded) => {
                        let inner = IntentWalk { in_flight: w.in_flight.push(path), ..w };
                        lemma_plan_config_grows(replies, inner, loaded.config, loaded.path@, home, used + taken + 1);
                        match plan_config(replies, inner, loaded.config, loaded.path@, home, used + taken + 1) {
                            Err(h) => {},
                            Ok((sub, w2, sub_taken)) => {
                                let next = IntentWalk { in_flight: w.in_flight, seen: w2.seen.push(path), ..w2 };
                                lemma_includes_grows(replies, next, config, config_path, home, used, j + 1, acc + sub, taken + 1 + sub_taken);
                                assert forall|x: Seq<char>| holds_path(w2.seen, x) implies holds_path(next.seen, x) by {
                                    lemma_holds_path_push(w2.seen, path, x);
                                }
                            },
                        }
                    },
                }
            },
        }
    }
}

proof fn lemma_plan_config_shift(
    earlier: IntentReplies,
    later: IntentReplies,
    extra: Seq<Seq<char>>,
    walk: IntentWalk,
    seen: Seq<Seq<char>>,
    env_extra: nat,
    config_extra: nat,
    config: Config,
    config_path: Seq<char>,
    home: Seq<char>,
    used: nat,
)
    requires
        later.directories@ == earlier.directories@,
        env_shifted(earlier, later, walk.env_used, env_extra),
        configs_shifted(earlier, later, used, config_extra),
        seen_with(seen, walk.seen, extra),
    ensures
        !config_meets(earlier, walk, config, config_path, home, used, extra) ==> match plan_config(
            earlier,
            walk,
            config,
            config_path,
            home,
            used,
        ) {
            Ok((s, w, t)) => plan_config(
                later,
                shifted_walk(walk, seen, env_extra),
                config,
                config_path,
                home,
                used + config_extra,
            ) matches Ok((s2, w2, t2)) && s2 == s && t2 == t && w2 == shifted_walk(
                w,
                w2.seen,
                env_extra,
            ) && seen_with(w2.seen, w.seen, extra),
            Err(h) => plan_config(
                later,
                shifted_walk(walk, seen, env_extra),
                config,
                config_path,
                home,
                used + config_extra,
            ) == Err::<(Seq<IntentSourceView>, IntentWalk, nat), IntentHalt>(h),
        },
    decreases configs_left(earlier, used), config.includes@.len() + 1,
{
    lemma_own_sources_shift(earlier, later, walk, seen, env_extra, config, config, home, 0, Seq::empty());
    lemma_own_sources_frame(earlier, walk, config, home, 0, Seq::empty());
    match own_sources_from(earlier, walk, config, home, 0, Seq::empty()) {
        Err(h) => {},
        Ok((own, w)) => lemma_includes_shift(
            earlier,
            later,
            extra,
            w,
            seen,
            env_extra,
            config_extra,
            config,
            config,
            0,
            config_path,
            home,
            used,
            0,
            own,
            0,
            used + config_extra,
            0,
        ),
    }
}

#[verifier::spinoff_prover]
#[verifier::rlimit(40)]
proof fn lemma_includes_shift(
    earlier: IntentReplies,
    later: IntentReplies,
    extra: Seq<Seq<char>>,
    walk: IntentWalk,
    seen: Seq<Seq<char>>,
    env_extra: nat,
    config_extra: nat,
    config: Config,
    other: Config,
    offset: int,
    config_path: Seq<char>,
    home: Seq<char>,
    used: nat,
    j: int,
    acc: Seq<IntentSourceView>,
    taken: nat,
    used2: nat,
    taken2: nat,
)
    requires
        later.directories@ == earlier.directories@,
        env_shifted(earlier, later, walk.env_used, env_extra),
        configs_shifted(earlier, later, used + taken, config_extra),
        seen_with(seen, walk.seen, extra),
        used2 + taken2 == used + taken + config_extra,
        0 <= j,
        0 <= offset,
        other.includes@.len() == config.includes@.len() + offset,
        forall|i: int| j <= i < config.includes@.len() ==> other.includes@[i + offset] == #[trigger] config.includes@[i],
    ensures
        !includes_meet(earlier, walk, config, config_path, home, used, j, taken, extra) ==> match includes_from(
            earlier,
            walk,
            config,
            config_path,
            home,
            used,
            j,
            acc,
            taken,
        ) {
            Ok((s, w, t)) => includes_from(
                later,
                shifted_walk(walk, seen, env_extra),
                other,
                config_path,
                home,
                used2,
                j + offset,
                acc,
                taken2,
            ) matches Ok((s2, w2, t2)) && s2 == s && t2 + taken == t + taken2 && w2 == shifted_walk(
                w,
                w2.seen,
                env_extra,
            ) && seen_with(w2.seen, w.seen, extra),
            Err(h) => includes_from(
                later,
                shifted_walk(walk, seen, env_extra),
                other,
                config_path,
                home,
                used2,
                j + offset,
                acc,
                taken2,
            ) == Err::<(Seq<IntentSourceView>, IntentWalk, nat), IntentHalt>(h),
        },
    decreases configs_left(earlier, used + taken), config.includes@.len() - j,
{
    if j < config.includes@.len() {
        let entry = config.includes@[j];
        assert(other.includes@[j + offset] == entry);
        lemma_include_target_shift(earlier, later, walk, seen, env_extra, entry, config_path, home);
        match include_target(earlier, walk, entry, config_path, home) {
            Err(h) => {},
            Ok((None, w)) => lemma_includes_shift(
                earlier,
                later,
                extra,
                w,
                seen,
                env_extra,
                config_extra,
                config,
                other,
                offset,
                config_path,
                home,
                used,
                j + 1,
                acc,
                taken,
                used2,
                taken2,
            ),
            Ok((Some((path, optional)), w)) => {
                if holds_path(w.seen, path) {
                    assert(holds_path(seen, path));
                    lemma_includes_shift(
                        earlier,
                        later,
                        extra,
                        w,
                        seen,
                        env_extra,
                        config_extra,
                        config,
                        other,
                        offset,
                        config_path,
                        home,
                        used,
                        j + 1,
                        acc,
                        taken,
                        used2,
                        taken2,
                    );
                } else if holds_path(extra, path) {
                } else {
                    assert(!holds_path(seen, path));
                    if chain_position(w.in_flight, path) is Some {
                    } else if used + taken >= earlier.configs@.len() {
                    } else {
                        let answer = earlier.configs@[(used + taken) as int];
                        assert(later.configs@[(used2 + taken2) as int] == answer);
                        match answer {
                            Err(ProgramError::ConfigurationReadFailed { .. }) => if optional {
                                assert forall|x: Seq<char>|
                                    #[trigger] holds_path(seen.push(path), x) == (holds_path(
                                        w.seen.push(path),
                                        x,
                                    ) || holds_path(extra, x)) by {
                                    lemma_holds_path_push(seen, path, x);
                                    lemma_holds_path_push(w.seen, path, x);
                                }
                                lemma_includes_shift(
                                    earlier,
                                    later,
                                    extra,
                                    IntentWalk { seen: w.seen.push(path), ..w },
                                    seen.push(path),
                                    env_extra,
                                    config_extra,
                                    config,
                                    other,
                                    offset,
                                    config_path,
                                    home,
                                    used,
                                    j + 1,
                                    acc,
                                    taken + 1,
                                    used2,
                                    taken2 + 1,
                                );
                            } else {
                                lemma_includes_shift(
                                    earlier,
                                    later,
                                    extra,
                                    IntentWalk {
                                        missing_files: sorted_insert(w.missing_files, path, true),
                                        ..w
                                    },
                                    seen,
                                    env_extra,
                                    config_extra,
                                    config,
                                    other,
                                    offset,
                                    config_path,
                                    home,
                                    used,
                                    j + 1,
                                    acc,
                                    taken + 1,
                                    used2,
                                    taken2 + 1,
                                );
                            },
                            Err(e) => {},
                            Ok(loaded) => {
                                let inner = IntentWalk { in_flight: w.in_flight.push(path), ..w };
                                lemma_plan_config_shift(
                                    earlier,
                                    later,
                                    extra,
                                    inner,
                                    seen,
                                    env_extra,
                                    config_extra,
                                    loaded.config,
                                    loaded.path@,
                                    home,
                                    used + taken + 1,
                                );
                                lemma_plan_config_grows(
                                    earlier,
                                    inner,
                                    loaded.config,
                                    loaded.path@,
                                    home,
                                    used + taken + 1,
                                );
                                match plan_config(
                                    earlier,
                                    inner,
                                    loaded.config,
                                    loaded.path@,
                                    home,
                                    used + taken + 1,
                                ) {
                                    Err(h) => {},
                                    Ok((sub, w2, sub_taken)) => {
                                        let next = IntentWalk {
                                            in_flight: w.in_flight,
                                            seen: w2.seen.push(path),
                                            ..w2
                                        };
                                        lemma_includes_grows(
                                            earlier,
                                            next,
                                            config,
                                            config_path,
                                            home,
                                            used,
                                            j + 1,
                                            acc + sub,
                                            taken + 1 + sub_taken,
                                        );
                                        if !includes_meet(earlier, walk, config, config_path, home, used, j, taken, extra) {
                                            assert(!config_meets(earlier, inner, loaded.config, loaded.path@, home, used + taken + 1, extra));
                                            assert(!includes_meet(earlier, next, config, config_path, home, used, j + 1, taken + 1 + sub_taken, extra));
                                            let later_sub = plan_config(
                                                later,
                                                shifted_walk(inner, seen, env_extra),
                                                loaded.config,
                                                loaded.path@,
                                                home,
                                                used + taken + 1 + config_extra,
                                            )->Ok_0;
                                            let w2b = later_sub.1;
                                            assert forall|x: Seq<char>|
                                                #[trigger] holds_path(w2b.seen.push(path), x) == (
                                                holds_path(w2.seen.push(path), x) || holds_path(
                                                    extra,
                                                    x,
                                                )) by {
                                                lemma_holds_path_push(w2b.seen, path, x);
                                                lemma_holds_path_push(w2.seen, path, x);
                                            }
                                            lemma_includes_shift(
                                                earlier,
                                                later,
                                                extra,
                                                next,
                                                w2b.seen.push(path),
                                                env_extra,
                                                config_extra,
                                                config,
                                                other,
                                                offset,
                                                config_path,
                                                home,
                                                used,
                                                j + 1,
                                                acc + sub,
                                                taken + 1 + sub_taken,
                                                used2,
                                                taken2 + 1 + sub_taken,
                                            );
                                        }
                                    },
                                }
                            },
                        }
                    }
                }
            },
        }
    }
}

/// `extended` is `loaded` with `entry` added to its includes, right after
/// those of `before`: `loaded` as far as its includes before that place.
pub open spec fn with_include_inserted(
    loaded: LoadedConfig,
    before: LoadedConfig,
    extended: LoadedConfig,
    entry: Include,
) -> bool {
    let n = before.config.includes@.len() as int;
    &&& before.path@ == loaded.path@
    &&& extended.path@ == loaded.path@
    &&& extended.config.repository@ == loaded.config.repository@
    &&& before.config.defaults == loaded.config.defaults
    &&& extended.config.defaults == loaded.config.defaults
    &&& before.config.sources@ == loaded.config.sources@
    &&& extended.config.sources@ == loaded.config.sources@
    &&& n <= loaded.config.includes@.len()
    &&& before.config.includes@ == loaded.config.includes@.take(n)
    &&& extended.config.includes@ == before.config.includes@.push(entry) + loaded.config.includes@.skip(n)
}

/// The walk at the end and the number of config answers taken, when
/// planning `loaded` goes through its whole include tree (whether or not
/// variables or includes turn out missing).
pub open spec fn planning_end(loaded: LoadedConfig, home: Seq<char>, replies: IntentReplies) -> Option<(IntentWalk, nat)> {
    match plan_config(replies, initial_walk(loaded.path@), loaded.config, loaded.path@, home, 0) {
        Ok((_, w, t)) => Some((w, t)),
        Err(_) => None,
    }
}

/// Planning `before` goes through its whole include tree without seeing
/// `path`, and planning the includes of `loaded` after those of `before`,
/// from there on, never meets `path` at an include not seen before.
pub open spec fn rest_passes_by(
    loaded: LoadedConfig,
    before: LoadedConfig,
    home: Seq<char>,
    replies: IntentReplies,
    path: Seq<char>,
) -> bool {
    match planning_end(before, home, replies) {
        Some((w, c)) => !holds_path(w.seen, path) && !includes_meet(
            replies,
            w,
            loaded.config,
            loaded.path@,
            home,
            0,
            before.config.includes@.len() as int,
            c,
            seq![path],
        ),
        None => false,
    }
}

/// An optional include whose file cannot be read changes nothing: the
/// config with such an include added among its includes plans as the
/// config without it, the failed read being the one more config answer,
/// asked for right after those of the includes before it. This holds where
/// the include is not the config itself (that is a cycle), where its path
/// was not planned before it, and where planning the includes after it
/// never meets its path (a later include of the same path is skipped once
/// the failed read has marked it seen).
pub proof fn lemma_unreadable_optional_include(
    loaded: LoadedConfig,
    before: LoadedConfig,
    extended: LoadedConfig,
    path: String,
    home: Seq<char>,
    replies: IntentReplies,
    more: IntentReplies,
)
    requires
        with_include_inserted(loaded, before, extended, Include::Path { path, optional: true }),
        more.environment@ == replies.environment@,
        more.directories@ == replies.directories@,
        planning_end(before, home, replies) matches Some((_, c)) && more.configs@.len()
            == replies.configs@.len() + 1 && more.configs@.take(c as int) == replies.configs@.take(
            c as int,
        ) && (more.configs@[c as int] matches Err(ProgramError::ConfigurationReadFailed { .. }))
            && more.configs@.skip(c + 1int) == replies.configs@.skip(c as int),
        !same_path_spec(include_path(path@, loaded.path@, home), loaded.path@),
        rest_passes_by(loaded, before, home, replies, include_path(path@, loaded.path@, home)),
    ensures
        intent_planning(extended, home, more) == intent_planning(loaded, home, replies),
{
    let root = loaded.path@;
    let p = include_path(path@, root, home);
    let entry = Include::Path { path, optional: true };
    let start = initial_walk(root);
    let extra = seq![p];
    let n = before.config.includes@.len() as int;
    let none: Seq<IntentSourceView> = Seq::empty();
    assert(shifted_walk(start, start.seen, 0) == start);
    lemma_own_sources_shift(replies, more, start, start.seen, 0, loaded.config, extended.config, home, 0, none);
    lemma_own_sources_shift(replies, replies, start, start.seen, 0, loaded.config, before.config, home, 0, none);
    lemma_own_sources_frame(replies, start, loaded.config, home, 0, none);
    let (own, w) = own_sources_from(replies, start, loaded.config, home, 0, none)->Ok_0;
    assert(extended.config.includes@.take(n) == before.config.includes@);
    lemma_includes_split(replies, w, loaded.config, before.config, root, home, 0, 0, own, 0, n);
    lemma_includes_split(more, w, extended.config, before.config, root, home, 0, 0, own, 0, n);
    lemma_includes_grows(replies, w, before.config, root, home, 0, 0, own, 0);
    let (sp, wp, c) = includes_from(replies, w, before.config, root, home, 0, 0, own, 0)->Ok_0;
    assert forall|k: int| 0 <= k < c implies #[trigger] more.configs@[k] == replies.configs@[k] by {
        assert(more.configs@.take(c as int)[k] == replies.configs@.take(c as int)[k]);
    }
    lemma_includes_prefix_answers(replies, more, w, before.config, root, home, 0, 0, own, 0, wp.env_used, c);
    assert(extended.config.includes@[n] == entry);
    assert(wp.in_flight == seq![root]);
    assert(seq![root].drop_last() =~= Seq::<Seq<char>>::empty());
    assert(chain_position(Seq::<Seq<char>>::empty(), p) is None);
    assert(chain_position(wp.in_flight, p) is None);
    assert forall|k: int| c <= k < replies.configs@.len() implies more.configs@[k + 1] == #[trigger] replies.configs@[k] by {
        assert(more.configs@.skip(c + 1int)[k - c] == replies.configs@.skip(c as int)[k - c]);
    }
    assert forall|i: int| n <= i < loaded.config.includes@.len() implies extended.config.includes@[i + 1] == #[trigger] loaded.config.includes@[i] by {
        assert((before.config.includes@.push(entry) + loaded.config.includes@.skip(n))[i + 1] == loaded.config.includes@.skip(n)[i - n]);
    }
    let seen = wp.seen.push(p);
    assert forall|x: Seq<char>| #[trigger] holds_path(seen, x) == (holds_path(wp.seen, x) || holds_path(extra, x)) by {
        lemma_holds_path_push(wp.seen, p, x);
        assert(extra[0] == p);
    }
    lemma_includes_shift(
        replies,
        more,
        extra,
        wp,
        seen,
        0,
        1,
        loaded.config,
        extended.config,
        1,
        root,
        home,
        0,
        n,
        sp,
        c,
        0,
        c + 1,
    );
}

/// An optional include whose variable is unset changes nothing: the config
/// with such an include added among its includes plans as the config
/// without it, the unset variable being the one more environment answer,
/// asked for right after those of the sources and includes before it. This
/// holds whenever the include is reached, that is whenever planning the
/// config as far as the includes before it goes through all of them.
pub proof fn lemma_unset_optional_include(
    loaded: LoadedConfig,
    before: LoadedConfig,
    extended: LoadedConfig,
    env: String,
    home: Seq<char>,
    replies: IntentReplies,
    more: IntentReplies,
)
    requires
        with_include_inserted(loaded, before, extended, Include::Environment { env, optional: true }),
        more.directories@ == replies.directories@,
        more.configs@ == replies.configs@,
        planning_end(before, home, replies) matches Some((w, _)) && more.environment@
            == replies.environment@.take(w.env_used as int).push(None) + replies.environment@.skip(
            w.env_used as int,
        ),
    ensures
        intent_planning(extended, home, more) == intent_planning(loaded, home, replies),
{
    let root = loaded.path@;
    let start = initial_walk(root);
    let entry = Include::Environment { env, optional: true };
    let n = before.config.includes@.len() as int;
    let empty_sources: Seq<IntentSourceView> = Seq::empty();
    assert(shifted_walk(start, start.seen, 0) == start);
    lemma_own_sources_shift(replies, replies, start, start.seen, 0, loaded.config, before.config, home, 0, empty_sources);
    lemma_own_sources_frame(replies, start, loaded.config, home, 0, empty_sources);
    let (own, w) = own_sources_from(replies, start, loaded.config, home, 0, empty_sources)->Ok_0;
    lemma_includes_grows(replies, w, before.config, root, home, 0, 0, own, 0);
    let (sp, wp, c) = includes_from(replies, w, before.config, root, home, 0, 0, own, 0)->Ok_0;
    let e = wp.env_used;
    let answers = replies.environment@;
    assert(more.environment@.len() == answers.len() + 1);
    assert forall|k: nat| k < e implies #[trigger] env_answer(more, k) == env_answer(replies, k) by {
        assert(more.environment@[k as int] == answers[k as int]);
    }
    lemma_own_sources_prefix(replies, more, start, loaded.config, extended.config, home, 0, empty_sources, e);
    assert(extended.config.includes@.take(n) == before.config.includes@);
    lemma_includes_split(replies, w, loaded.config, before.config, root, home, 0, 0, own, 0, n);
    lemma_includes_split(more, w, extended.config, before.config, root, home, 0, 0, own, 0, n);
    lemma_includes_prefix_answers(replies, more, w, before.config, root, home, 0, 0, own, 0, e, c);
    assert(extended.config.includes@[n] == entry);
    assert(more.environment@[e as int] is None);
    assert forall|k: nat| e <= k < answers.len() implies env_answer(more, k + 1) == #[trigger] env_answer(replies, k) by {
        assert(more.environment@[k + 1int] == answers[k as int]);
    }
    assert forall|i: int| n <= i < loaded.config.includes@.len() implies extended.config.includes@[i + 1] == #[trigger] loaded.config.includes@[i] by {
        assert((before.config.includes@.push(entry) + loaded.config.includes@.skip(n))[i + 1] == loaded.config.includes@.skip(n)[i - n]);
    }
    let none: Seq<Seq<char>> = Seq::empty();
    assert forall|x: Seq<char>| #[trigger] holds_path(wp.seen, x) == (holds_path(wp.seen, x) || holds_path(none, x)) by {}
    assert(shifted_walk(wp, wp.seen, 1) == IntentWalk { env_used: e + 1, ..wp });
    lemma_includes_shift(
        replies,
        more,
        none,
        wp,
        wp.seen,
        1,
        0,
        loaded.config,
        extended.config,
        1,
        root,
        home,
        0,
        n,
        sp,
        c,
        0,
        c,
    );
    lemma_includes_meet_nothing(replies, wp, loaded.config, root, home, 0, n, c);
}

/// An include added where planning never gets to, or whose path was
/// planned (or passed over as missing and optional) before it, changes
/// nothing: no question is asked for it and the outcome stays the same.
pub proof fn lemma_include_passed_over(
    loaded: LoadedConfig,
    before: LoadedConfig,
    extended: LoadedConfig,
    path: String,
    optional: bool,
    home: Seq<char>,
    replies: IntentReplies,
)
    requires
        with_include_inserted(loaded, before, extended, Include::Path { path, optional }),
        planning_end(before, home, replies) matches Some((w, _)) ==> holds_path(
            w.seen,
            include_path(path@, loaded.path@, home),
        ),
    ensures
        intent_planning(extended, home, replies) == intent_planning(loaded, home, replies),
{
    let root = loaded.path@;
    let start = initial_walk(root);
    let entry = Include::Path { path, optional };
    let n = before.config.includes@.len() as int;
    let empty_sources: Seq<IntentSourceView> = Seq::empty();
    assert(shifted_walk(start, start.seen, 0) == start);
    lemma_own_sources_shift(replies, replies, start, start.seen, 0, loaded.config, extended.config, home, 0, empty_sources);
    lemma_own_sources_shift(replies, replies, start, start.seen, 0, loaded.config, before.config, home, 0, empty_sources);
    lemma_own_sources_frame(replies, start, loaded.config, home, 0, empty_sources);
    if let Ok((own, w)) = own_sources_from(replies, start, loaded.config, home, 0, empty_sources) {
        assert(extended.config.includes@.take(n) == before.config.includes@);
        lemma_includes_split(replies, w, loaded.config, before.config, root, home, 0, 0, own, 0, n);
        lemma_includes_split(replies, w, extended.config, before.config, root, home, 0, 0, own, 0, n);
        if let Ok((sp, wp, c)) = includes_from(replies, w, before.config, root, home, 0, 0, own, 0) {
            assert(extended.config.includes@[n] == entry);
            assert forall|i: int| n <= i < loaded.config.includes@.len() implies extended.config.includes@[i + 1] == #[trigger] loaded.config.includes@[i] by {
                assert((before.config.includes@.push(entry) + loaded.config.includes@.skip(n))[i + 1] == loaded.config.includes@.skip(n)[i - n]);
            }
            let none: Seq<Seq<char>> = Seq::empty();
            assert forall|x: Seq<char>| #[trigger] holds_path(wp.seen, x) == (holds_path(wp.seen, x) || holds_path(none, x)) by {}
            assert(shifted_walk(wp, wp.seen, 0) == wp);
            lemma_includes_shift(
                replies,
                replies,
                none,
                wp,
                wp.seen,
                0,
                0,
                loaded.config,
                extended.config,
                1,
                root,
                home,
                0,
                n,
                sp,
                c,
                0,
                c,
            );
            lemma_includes_meet_nothing(replies, wp, loaded.config, root, home, 0, n, c);
        }
    }
}

proof fn lemma_source_intent_prefix(
    earlier: IntentReplies,
    later: IntentReplies,
    walk: IntentWalk,
    config: Config,
    other: Config,
    source: Source,
    home: Seq<char>,
    bound: nat,
)
    requires
        later.directories@ == earlier.directories@,
        other.defaults == config.defaults,
        bound <= later.environment@.len(),
        forall|k: nat| k < bound ==> #[trigger] env_answer(later, k) == env_answer(earlier, k),
    ensures
        source_intent(earlier, walk, config, source, home) matches Ok((_, w)) && w.env_used <= bound
            ==> source_intent(later, walk, other, source, home) == source_intent(
            earlier,
            walk,
            config,
            source,
            home,
        ),
{
    if walk.env_used < bound {
        assert(env_answer(later, walk.env_used) == env_answer(earlier, walk.env_used));
    }
}

proof fn lemma_own_sources_prefix(
    earlier: IntentReplies,
    later: IntentReplies,
    walk: IntentWalk,
    config: Config,
    other: Config,
    home: Seq<char>,
    k: int,
    acc: Seq<IntentSourceView>,
    bound: nat,
)
    requires
        later.directories@ == earlier.directories@,
        other.defaults == config.defaults,
        other.sources@ == config.sources@,
        bound <= later.environment@.len(),
        forall|k: nat| k < bound ==> #[trigger] env_answer(later, k) == env_answer(earlier, k),
    ensures
        own_sources_from(earlier, walk, config, home, k, acc) matches Ok((_, w)) && w.env_used
            <= bound ==> own_sources_from(later, walk, other, home, k, acc) == own_sources_from(
            earlier,
            walk,
            config,
            home,
            k,
            acc,
        ),
    decreases config.sources@.len() - k,
{
    if k < config.sources@.len() && k >= 0 {
        let source = config.sources@[k];
        lemma_source_intent_prefix(earlier, later, walk, config, other, source, home, bound);
        match source_intent(earlier, walk, config, source, home) {
            Err(h) => {},
            Ok((None, w)) => {
                lemma_own_sources_prefix(earlier, later, w, config, other, home, k + 1, acc, bound);
                lemma_own_sources_frame(earlier, w, config, home, k + 1, acc);
            },
            Ok((Some(s), w)) => {
                lemma_own_sources_prefix(earlier, later, w, config, other, home, k + 1, acc.push(s), bound);
                lemma_own_sources_frame(earlier, w, config, home, k + 1, acc.push(s));
            },
        }
    }
}

/// `later` gives the directory answers `earlier` gives, and the same
/// answers below `env_bound` environment answers and `config_bound` config
/// answers.
pub open spec fn answers_agree(earlier: IntentReplies, later: IntentReplies, env_bound: nat, config_bound: nat) -> bool {
    &&& later.directories@ == earlier.directories@
    &&& env_bound <= later.environment@.len()
    &&& forall|k: nat| k < env_bound ==> #[trigger] env_answer(later, k) == env_answer(earlier, k)
    &&& config_bound <= later.configs@.len()
    &&& forall|k: int| 0 <= k < config_bound ==> #[trigger] later.configs@[k] == earlier.configs@[k]
}

proof fn lemma_include_target_prefix(
    earlier: IntentReplies,
    later: IntentReplies,
    walk: IntentWalk,
    entry: Include,
    config_path: Seq<char>,
    home: Seq<char>,
    env_bound: nat,
    config_bound: nat,
)
    requires
        answers_agree(earlier, later, env_bound, config_bound),
    ensures
        include_target(earlier, walk, entry, config_path, home) matches Ok((_, w)) && w.env_used
            <= env_bound ==> include_target(later, walk, entry, config_path, home) == include_target(
            earlier,
            walk,
            entry,
            config_path,
            home,
        ),
{
    if walk.env_used < env_bound {
        assert(env_answer(later, walk.env_used) == env_answer(earlier, walk.env_used));
    }
}

proof fn lemma_plan_config_prefix_answers(
    earlier: IntentReplies,
    later: IntentReplies,
    walk: IntentWalk,
    config: Config,
    config_path: Seq<char>,
    home: Seq<char>,
    used: nat,
    env_bound: nat,
    config_bound: nat,
)
    requires
        answers_agree(earlier, later, env_bound, config_bound),
    ensures
        plan_config(earlier, walk, config, config_path, home, used) matches Ok((_, w, t)) && w.env_used
            <= env_bound && used + t <= config_bound ==> plan_config(
            later,
            walk,
            config,
            config_path,
            home,
            used,
        ) == plan_config(earlier, walk, config, config_path, home, used),
    decreases configs_left(earlier, used), config.includes@.len() + 1,
{
    lemma_own_sources_prefix(earlier, later, walk, config, config, home, 0, Seq::empty(), env_bound);
    lemma_own_sources_frame(earlier, walk, config, home, 0, Seq::empty());
    match own_sources_from(earlier, walk, config, home, 0, Seq::empty()) {
        Err(h) => {},
        Ok((own, w)) => {
            lemma_includes_prefix_answers(earlier, later, w, config, config_path, home, used, 0, own, 0, env_bound, config_bound);
            lemma_includes_grows(earlier, w, config, config_path, home, used, 0, own, 0);
        },
    }
}

proof fn lemma_includes_prefix_answers(
    earlier: IntentReplies,
    later: IntentReplies,
    walk: IntentWalk,
    config: Config,
    config_path: Seq<char>,
    home: Seq<char>,
    used: nat,
    j: int,
    acc: Seq<IntentSourceView>,
    taken: nat,
    env_bound: nat,
    config_bound: nat,
)
    requires
        answers_agree(earlier, later, env_bound, config_bound),
    ensures
        includes_from(earlier, walk, config, config_path, home, used, j, acc, taken) matches Ok((_, w, t))
            && w.env_used <= env_bound && used + t <= config_bound ==> includes_from(
            later,
            walk,
            config,
            config_path,
            home,
            used,
            j,
            acc,
            taken,
        ) == includes_from(earlier, walk, config, config_path, home, used, j, acc, taken),
    decreases configs_left(earlier, used + taken), config.includes@.len() - j,
{
    if j >= config.includes@.len() || j < 0 {
    } else {
        let entry = config.includes@[j];
        lemma_include_target_prefix(earlier, later, walk, entry, config_path, home, env_bound, config_bound);
        lemma_include_target_shift(earlier, earlier, walk, walk.seen, 0, entry, config_path, home);
        match include_target(earlier, walk, entry, config_path, home) {
            Err(h) => {},
            Ok((None, w)) => {
                lemma_includes_prefix_answers(earlier, later, w, config, config_path, home, used, j + 1, acc, taken, env_bound, config_bound);
                lemma_includes_grows(earlier, w, config, config_path, home, used, j + 1, acc, taken);
            },
            Ok((Some((path, optional)), w)) => if holds_path(w.seen, path) {
                lemma_includes_prefix_answers(earlier, later, w, config, config_path, home, used, j + 1, acc, taken, env_bound, config_bound);
                lemma_includes_grows(earlier, w, config, config_path, home, used, j + 1, acc, taken);
            } else if chain_position(w.in_flight, path) is Some {
            } else if used + taken >= earlier.configs@.len() {
            } else {
                match earlier.configs@[(used + taken) as int] {
                    Err(ProgramError::ConfigurationReadFailed { .. }) => if optional {
                        let next = IntentWalk { seen: w.seen.push(path), ..w };
                        lemma_includes_prefix_answers(earlier, later, next, config, config_path, home, used, j + 1, acc, taken + 1, env_bound, config_bound);
                        lemma_includes_grows(earlier, next, config, config_path, home, used, j + 1, acc, taken + 1);
                    } else {
                        let next = IntentWalk { missing_files: sorted_insert(w.missing_files, path, true), ..w };
                        lemma_includes_prefix_answers(earlier, later, next, config, config_path, home, used, j + 1, acc, taken + 1, env_bound, config_bound);
                        lemma_includes_grows(earlier, next, config, config_path, home, used, j + 1, acc, taken + 1);
                    },
                    Err(e) => {},
                    Ok(loaded) => {
                        let inner = IntentWalk { in_flight: w.in_flight.push(path), ..w };
                        lemma_plan_config_prefix_answers(earlier, later, inner, loaded.config, loaded.path@, home, used + taken + 1, env_bound, config_bound);
                        lemma_plan_config_grows(earlier, inner, loaded.config, loaded.path@, home, used + taken + 1);
                        match plan_config(earlier, inner, loaded.config, loaded.path@, home, used + taken + 1) {
                            Err(h) => {},
                            Ok((sub, w2, sub_taken)) => {
                                let next = IntentWalk { in_flight: w.in_flight, seen: w2.seen.push(path), ..w2 };
                                lemma_includes_prefix_answers(earlier, later, next, config, config_path, home, used, j + 1, acc + sub, taken + 1 + sub_taken, env_bound, config_bound);
                                lemma_includes_grows(earlier, next, config, config_path, home, used, j + 1, acc + sub, taken + 1 + sub_taken);
                            },
                        }
                    },
                }
            },
        }
    }
}

/// Planning the includes of `config` from `j` on goes through those of
/// `prefix`, which lists the first `stop` of them, and then on from `stop`.
proof fn lemma_includes_split(
    replies: IntentReplies,
    walk: IntentWalk,
    config: Config,
    prefix: Config,
    config_path: Seq<char>,
    home: Seq<char>,
    used: nat,
    j: int,
    acc: Seq<IntentSourceView>,
    taken: nat,
    stop: int,
)
    requires
        0 <= j <= stop <= config.includes@.len(),
        prefix.includes@ == config.includes@.take(stop),
    ensures
        includes_from(replies, walk, config, config_path, home, used, j, acc, taken) == match includes_from(
            replies,
            walk,
            prefix,
            config_path,
            home,
            used,
            j,
            acc,
            taken,
        ) {
            Ok((s, w, t)) => includes_from(replies, w, config, config_path, home, used, stop, s, t),
            Err(h) => Err(h),
        },
    decreases stop - j,
{
    if j < stop {
        assert(prefix.includes@[j] == config.includes@[j]);
        let entry = config.includes@[j];
        match include_target(replies, walk, entry, config_path, home) {
            Err(h) => {},
            Ok((None, w)) => lemma_includes_split(replies, w, config, prefix, config_path, home, used, j + 1, acc, taken, stop),
            Ok((Some((path, optional)), w)) => if holds_path(w.seen, path) {
                lemma_includes_split(replies, w, config, prefix, config_path, home, used, j + 1, acc, taken, stop);
            } else if chain_position(w.in_flight, path) is Some {
            } else if used + taken >= replies.configs@.len() {
            } else {
                match replies.configs@[(used + taken) as int] {
                    Err(ProgramError::ConfigurationReadFailed { .. }) => if optional {
                        lemma_includes_split(replies, IntentWalk { seen: w.seen.push(path), ..w }, config, prefix, config_path, home, used, j + 1, acc, taken + 1, stop);
                    } else {
                        lemma_includes_split(replies, IntentWalk { missing_files: sorted_insert(w.missing_files, path, true), ..w }, config, prefix, config_path, home, used, j + 1, acc, taken + 1, stop);
                    },
                    Err(e) => {},
                    Ok(loaded) => {
                        let inner = IntentWalk { in_flight: w.in_flight.push(path), ..w };
                        match plan_config(replies, inner, loaded.config, loaded.path@, home, used + taken + 1) {
                            Err(h) => {},
                            Ok((sub, w2, sub_taken)) => lemma_includes_split(
                                replies,
                                IntentWalk { in_flight: w.in_flight, seen: w2.seen.push(path), ..w2 },
                                config,
                                prefix,
                                config_path,
                                home,
                                used,
                                j + 1,
                                acc + sub,
                                taken + 1 + sub_taken,
                                stop,
                            ),
                        }
                    },
                }
            },
        }
    }
}

proof fn lemma_config_meets_nothing(
    replies: IntentReplies,
    walk: IntentWalk,
    config: Config,
    config_path: Seq<char>,
    home: Seq<char>,
    used: nat,
)
    ensures
        !config_meets(replies, walk, config, config_path, home, used, Seq::empty()),
    decreases configs_left(replies, used), config.includes@.len() + 1,
{
    match own_sources_from(replies, walk, config, home, 0, Seq::empty()) {
        Err(_) => {},
        Ok((_, w)) => lemma_includes_meet_nothing(replies, w, config, config_path, home, used, 0, 0),
    }
}

proof fn lemma_includes_meet_nothing(
    replies: IntentReplies,
    walk: IntentWalk,
    config: Config,
    config_path: Seq<char>,
    home: Seq<char>,
    used: nat,
    j: int,
    taken: nat,
)
    ensures
        !includes_meet(replies, walk, config, config_path, home, used, j, taken, Seq::empty()),
    decreases configs_left(replies, used + taken), config.includes@.len() - j,
{
    if j < config.includes@.len() && j >= 0 {
        match include_target(replies, walk, config.includes@[j], config_path, home) {
            Err(_) => {},
            Ok((None, w)) => lemma_includes_meet_nothing(replies, w, config, config_path, home, used, j + 1, taken),
            Ok((Some((path, optional)), w)) => if holds_path(w.seen, path) {
                lemma_includes_meet_nothing(replies, w, config, config_path, home, used, j + 1, taken);
            } else if chain_position(w.in_flight, path) is Some || used + taken >= replies.configs@.len() {
            } else {
                match replies.configs@[(used + taken) as int] {
                    Err(ProgramError::ConfigurationReadFailed { .. }) => if optional {
                        lemma_includes_meet_nothing(replies, IntentWalk { seen: w.seen.push(path), ..w }, config, config_path, home, used, j + 1, taken + 1);
                    } else {
                        lemma_includes_meet_nothing(replies, IntentWalk { missing_files: sorted_insert(w.missing_files, path, true), ..w }, config, config_path, home, used, j + 1, taken + 1);
                    },
                    Err(_) => {},
                    Ok(loaded) => {
                        let inner = IntentWalk { in_flight: w.in_flight.push(path), ..w };
                        lemma_config_meets_nothing(replies, inner, loaded.config, loaded.path@, home, used + taken + 1);
                        match plan_config(replies, inner, loaded.config, loaded.path@, home, used + taken + 1) {
                            Ok((_, w2, sub_taken)) => lemma_includes_meet_nothing(
                                replies,
                                IntentWalk { in_flight: w.in_flight, seen: w2.seen.push(path), ..w2 },
                                config,
                                config_path,
                                home,
                                used,
                                j + 1,
                                taken + 1 + sub_taken,
                            ),
                            Err(_) => {},
                        }
                    },
                }
            },
        }
    }
}

} // verus!
