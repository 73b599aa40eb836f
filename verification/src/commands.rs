//! The `info` and `apply` commands, and the settings they start from: the
//! home directory, the configuration file's location and the names every
//! selection leaves out.
//!
//! Each command chains the planning stages and renders what they produce.
//! It is driven like the stages themselves: it is called with the answers
//! gathered so far and either finishes or names the next question.

use vstd::prelude::*;

use crate::actions::{
    apply_events, apply_log, apply_operation_plan, apply_progress_view, plan_apply, ApplyProgress,
    ApplyReplies, ApplyRequest, ApplyRequestView,
};
use crate::cli::{apply_output, inspection_output, render_apply_output, render_inspection_outcomes};
use crate::color::RuntimeConfig;
use crate::config::LoadedConfig;
use crate::errors::{ProgramError, ProgramErrorView};
use crate::intent::{
    derive_intent_plan, intent_events, intent_log, intent_planning, IntentPlan, IntentPlanView, IntentProgress,
    IntentProgressView, IntentReplies, IntentRequest, IntentRequestView,
};
use crate::operation::{
    derive_operation_plan, lemma_operation_planning_by_view, operation_events, operation_log,
    operation_planning,
    OperationPlanView, OperationProgress, OperationProgressView, OperationReplies,
    OperationRequest, OperationRequestView,
};
use crate::logging::{event_of, events_view, make_event, LogEvent, LogEventView, RecordLevel};
use crate::status::{
    inspect_operation_plan_status, inspection_events, inspection_log, inspection_progress_view,
    plan_inspection, PlanInspectionProgress, InspectionReplies, InspectionRequest, InspectionRequestView,
};
use crate::text::{is_absolute, is_absolute_path, join_path, path_join, texts_view};

verus! {

// ---------------------------------------------------------------------------
// Settings
// ---------------------------------------------------------------------------

/// The home directory: the value of `HOME`, required.
pub fn resolve_home_directory(home_variable: Option<String>) -> (res: Result<String, ProgramError>)
    ensures
        match home_variable {
            Some(home) => res matches Ok(r) && r@ == home@,
            None => res matches Err(ProgramError::HomeDirectoryUnavailable),
        },
{
    match home_variable {
        Some(home) => Ok(home),
        None => Err(ProgramError::HomeDirectoryUnavailable),
    }
}

/// The default location of the configuration file: under
/// `XDG_CONFIG_HOME` when it is set to an absolute path, else under
/// `~/.config`, at `gitenv/config.yml`.
pub open spec fn default_config_location(home: Seq<char>, xdg_config_home: Option<Seq<char>>) -> Seq<
    char,
> {
    let config_home = match xdg_config_home {
        Some(xdg) => if is_absolute_path(xdg) {
            xdg
        } else {
            path_join(home, ".config"@)
        },
        None => path_join(home, ".config"@),
    };
    path_join(path_join(config_home, "gitenv"@), "config.yml"@)
}

/// The default location of the configuration file, from the home directory
/// and the value of `XDG_CONFIG_HOME`.
pub fn default_config_path_from_env(home_directory: &String, xdg_config_home: Option<String>) -> (res:
    String)
    ensures
        res@ == default_config_location(
            home_directory@,
            match xdg_config_home {
                Some(x) => Some(x@),
                None => None,
            },
        ),
{
    let suffix = String::from_str(".config");
    let config_home = match xdg_config_home {
        Some(xdg) => if is_absolute(&xdg) {
            xdg
        } else {
            join_path(home_directory, &suffix)
        },
        None => join_path(home_directory, &suffix),
    };
    let directory = join_path(&config_home, &String::from_str("gitenv"));
    join_path(&directory, &String::from_str("config.yml"))
}

/// The configuration file to load: the one named explicitly, else the
/// default location.
pub fn determine_config_path(
    explicit_config_path: Option<String>,
    home_directory: &String,
    xdg_config_home: Option<String>,
) -> (res: String)
    ensures
        match explicit_config_path {
            Some(p) => res@ == p@,
            None => res@ == default_config_location(
                home_directory@,
                match xdg_config_home {
                    Some(x) => Some(x@),
                    None => None,
                },
            ),
        },
{
    match explicit_config_path {
        Some(path) => path,
        None => default_config_path_from_env(home_directory, xdg_config_home),
    }
}

/// The names every selection leaves out on an operating system: the Finder's
/// `.DS_Store` files on macOS, nothing elsewhere.
pub open spec fn global_selection_excludes(os_name: Seq<char>) -> Seq<Seq<char>> {
    if os_name == "macos"@ {
        seq![".DS_Store"@]
    } else {
        Seq::empty()
    }
}

/// The names every selection leaves out on the operating system `os_name`.
pub fn default_global_selection_excludes(os_name: &str) -> (res: Vec<String>)
    ensures
        texts_view(res@) == global_selection_excludes(os_name@),
{
    let mut excludes: Vec<String> = Vec::new();
    let name = String::from_str(os_name);
    let macos = String::from_str("macos");
    if crate::text::same_text(&name, &macos) {
        excludes.push(String::from_str(".DS_Store"));
        assert(texts_view(excludes@) =~= seq![".DS_Store"@]);
    } else {
        assert(texts_view(excludes@) =~= Seq::<Seq<char>>::empty());
    }
    excludes
}

// ---------------------------------------------------------------------------
// Questions and answers of a command
// ---------------------------------------------------------------------------

/// The text a command prints on success.
#[derive(Debug, Clone, PartialEq, Eq)]
pub struct ProgramOutput {
    pub message: String,
}

/// A question a command needs answered, by the stage that asks it.
#[derive(Debug, PartialEq, Eq)]
pub enum CommandRequest {
    Intent(IntentRequest),
    Operation(OperationRequest),
    Inspection(InspectionRequest),
    Apply(ApplyRequest),
}

pub enum CommandRequestView {
    Intent(IntentRequestView),
    Operation(OperationRequestView),
    Inspection(InspectionRequestView),
    Apply(ApplyRequestView),
}

impl View for CommandRequest {
    type V = CommandRequestView;

    open spec fn view(&self) -> CommandRequestView {
        match self {
            CommandRequest::Intent(q) => CommandRequestView::Intent(q@),
            CommandRequest::Operation(q) => CommandRequestView::Operation(q@),
            CommandRequest::Inspection(q) => CommandRequestView::Inspection(q@),
            CommandRequest::Apply(q) => CommandRequestView::Apply(q@),
        }
    }
}

/// The answers gathered so far, by stage.
pub struct CommandReplies {
    pub intent: IntentReplies,
    pub operation: OperationReplies,
    pub inspection: InspectionReplies,
    pub apply: ApplyReplies,
}

impl CommandReplies {
    /// No answers yet.
    pub fn new() -> (res: Self)
        ensures
            res.intent.environment@.len() == 0,
            res.intent.directories@.len() == 0,
            res.intent.configs@.len() == 0,
            res.operation.readability@.len() == 0,
            res.operation.listings@.len() == 0,
            res.operation.target_directories@.len() == 0,
            res.inspection.kinds@.len() == 0,
            res.inspection.symlink_targets@.len() == 0,
            res.inspection.digests@.len() == 0,
            res.apply.changes@.len() == 0,
            res.apply.existence@.len() == 0,
            res.apply.inspection.kinds@.len() == 0,
            res.apply.inspection.symlink_targets@.len() == 0,
            res.apply.inspection.digests@.len() == 0,
    {
        CommandReplies {
            intent: IntentReplies::new(),
            operation: OperationReplies::new(),
            inspection: InspectionReplies::new(),
            apply: ApplyReplies::new(),
        }
    }
}

/// Where a command stands.
#[derive(Debug, PartialEq, Eq)]
pub enum CommandProgress {
    Finished(Result<ProgramOutput, ProgramError>),
    Needs(CommandRequest),
}

pub enum CommandProgressView {
    Finished(Result<Seq<char>, ProgramErrorView>),
    Needs(CommandRequestView),
}

impl View for CommandProgress {
    type V = CommandProgressView;

    open spec fn view(&self) -> CommandProgressView {
        match self {
            CommandProgress::Finished(Ok(output)) => CommandProgressView::Finished(
                Ok(output.message@),
            ),
            CommandProgress::Finished(Err(e)) => CommandProgressView::Finished(Err(e@)),
            CommandProgress::Needs(q) => CommandProgressView::Needs(q@),
        }
    }
}

// ---------------------------------------------------------------------------
// The commands, modelled
// ---------------------------------------------------------------------------

/// An intent plan with the given content (operation planning reads no more
/// of it, see [`lemma_operation_planning_by_view`]).
pub open spec fn intent_plan_with(content: IntentPlanView) -> IntentPlan {
    choose|plan: IntentPlan| plan@ == content
}

/// The environment variable that, when set, names the repository root in
/// place of the configuration's `repository`.
pub open spec fn repository_variable() -> Seq<char> {
    "GITENV_REPO"@
}

pub open spec fn text_option_view(value: Option<String>) -> Option<Seq<char>> {
    match value {
        Some(v) => Some(v@),
        None => None,
    }
}

/// The repository root: the repository variable's value when it is set,
/// else the configured repository.
pub open spec fn repository_root_of(configured: Seq<char>, overriding: Option<Seq<char>>) -> Seq<char> {
    match overriding {
        Some(value) => value,
        None => configured,
    }
}

/// An intent plan carrying the repository root chosen by precedence.
pub open spec fn with_repository_root(plan: IntentPlanView, overriding: Option<Seq<char>>) -> IntentPlanView {
    IntentPlanView { repository: repository_root_of(plan.repository, overriding), sources: plan.sources }
}

/// The event naming where the repository root came from.
pub open spec fn repository_event(overriding: Option<Seq<char>>, root: Seq<char>) -> LogEventView {
    event_of(
        RecordLevel::Debug,
        "gitenv::intent"@,
        "repository_root_resolved"@,
        "resolved repository root from "@ + (if overriding is Some {
            "env"@
        } else {
            "config"@
        }) + " precedence source repository="@ + root,
    )
}

/// The stages up to the operation plan: intent planning, then operation
/// planning of the intent plan, with the repository root taken from the
/// repository variable when it is set.
pub open spec fn planned_operations(
    loaded: LoadedConfig,
    home: Seq<char>,
    overriding: Option<Seq<char>>,
    global_excludes: Seq<Seq<char>>,
    replies: CommandReplies,
) -> Result<Result<OperationPlanView, ProgramErrorView>, CommandRequestView> {
    match intent_planning(loaded, home, replies.intent) {
        IntentProgressView::Needs(q) => Err(CommandRequestView::Intent(q)),
        IntentProgressView::Finished(Err(e)) => Ok(Err(e)),
        IntentProgressView::Finished(Ok(intent)) => match operation_planning(
            intent_plan_with(with_repository_root(intent, overriding)),
            home,
            global_excludes,
            replies.operation,
        ) {
            OperationProgressView::Needs(q) => Err(CommandRequestView::Operation(q)),
            OperationProgressView::Finished(Err(e)) => Ok(Err(e)),
            OperationProgressView::Finished(Ok(plan)) => Ok(Ok(plan)),
        },
    }
}

/// The `info` command: the plan's inspection, one line per entry, or the
/// first stage's error.
pub open spec fn info_run(
    loaded: LoadedConfig,
    home: Seq<char>,
    use_color: bool,
    overriding: Option<Seq<char>>,
    global_excludes: Seq<Seq<char>>,
    replies: CommandReplies,
) -> CommandProgressView {
    match planned_operations(loaded, home, overriding, global_excludes, replies) {
        Err(q) => CommandProgressView::Needs(q),
        Ok(Err(e)) => CommandProgressView::Finished(Err(e)),
        Ok(Ok(plan)) => match plan_inspection(plan, replies.inspection) {
            Err(q) => CommandProgressView::Needs(CommandRequestView::Inspection(q)),
            Ok(Err(e)) => CommandProgressView::Finished(Err(e)),
            Ok(Ok(outcomes)) => CommandProgressView::Finished(
                Ok(inspection_output(outcomes, home, use_color)),
            ),
        },
    }
}

/// The `apply` command: the applied plan's outcomes, one line each, or the
/// first stage's error.
pub open spec fn apply_run(
    loaded: LoadedConfig,
    home: Seq<char>,
    use_color: bool,
    overriding: Option<Seq<char>>,
    global_excludes: Seq<Seq<char>>,
    replies: CommandReplies,
) -> CommandProgressView {
    match planned_operations(loaded, home, overriding, global_excludes, replies) {
        Err(q) => CommandProgressView::Needs(q),
        Ok(Err(e)) => CommandProgressView::Finished(Err(e)),
        Ok(Ok(plan)) => match plan_apply(plan, replies.apply) {
            Err(q) => CommandProgressView::Needs(CommandRequestView::Apply(q)),
            Ok(Err(e)) => CommandProgressView::Finished(Err(e)),
            Ok(Ok(outcomes)) => CommandProgressView::Finished(
                Ok(apply_output(outcomes, home, use_color)),
            ),
        },
    }
}

/// The events of the planning stages, in order: intent planning's, then,
/// once it has produced a plan, operation planning's.
pub open spec fn planning_log(
    loaded: LoadedConfig,
    home: Seq<char>,
    overriding: Option<Seq<char>>,
    global_excludes: Seq<Seq<char>>,
    replies: CommandReplies,
) -> Seq<LogEventView> {
    let intent = intent_planning(loaded, home, replies.intent);
    intent_log(loaded, intent) + match intent {
        IntentProgressView::Finished(Ok(plan)) => {
            let rooted = with_repository_root(plan, overriding);
            seq![repository_event(overriding, rooted.repository)] + operation_log(
                rooted,
                operation_planning(intent_plan_with(rooted), home, global_excludes, replies.operation),
            )
        },
        _ => Seq::empty(),
    }
}

/// The events of the `info` command: the planning stages', then, once
/// there is a plan, inspection's.
pub open spec fn info_log(
    loaded: LoadedConfig,
    home: Seq<char>,
    overriding: Option<Seq<char>>,
    global_excludes: Seq<Seq<char>>,
    replies: CommandReplies,
) -> Seq<LogEventView> {
    planning_log(loaded, home, overriding, global_excludes, replies) + match planned_operations(
        loaded,
        home,
        overriding,
        global_excludes,
        replies,
    ) {
        Ok(Ok(plan)) => inspection_log(plan, plan_inspection(plan, replies.inspection)),
        _ => Seq::empty(),
    }
}

/// The events of the `apply` command: the planning stages', then, once
/// there is a plan, apply's.
pub open spec fn apply_command_log(
    loaded: LoadedConfig,
    home: Seq<char>,
    overriding: Option<Seq<char>>,
    global_excludes: Seq<Seq<char>>,
    replies: CommandReplies,
) -> Seq<LogEventView> {
    planning_log(loaded, home, overriding, global_excludes, replies) + match planned_operations(
        loaded,
        home,
        overriding,
        global_excludes,
        replies,
    ) {
        Ok(Ok(plan)) => apply_log(plan, plan_apply(plan, replies.apply)),
        _ => Seq::empty(),
    }
}

fn append_events(log: &mut Vec<LogEvent>, events: Vec<LogEvent>)
    ensures
        events_view(final(log)@) == events_view(old(log)@) + events_view(events@),
{
    let ghost start = events_view(log@);
    let mut i: usize = 0;
    while i < events.len()
        invariant
            i <= events.len(),
            events_view(log@) == start + events_view(events@).take(i as int),
        decreases events.len() - i,
    {
        let ghost before = events_view(log@);
        let event = events[i].clone();
        assert(event@ == events_view(events@)[i as int]);
        log.push(event);
        assert(events_view(log@) =~= before.push(events_view(events@)[i as int]));
        assert(events_view(events@).take(i as int + 1) =~= events_view(events@).take(i as int).push(
            events_view(events@)[i as int],
        ));
        i += 1;
    }
    assert(events_view(events@).take(events.len() as int) =~= events_view(events@));
}

// ---------------------------------------------------------------------------
// The commands, executed
// ---------------------------------------------------------------------------

/// The repository root takes the repository variable's value when it is
/// set, and the configured repository otherwise: `intent_plan` with that
/// root, and the event naming where it came from.
pub fn resolve_repository_root(intent_plan: IntentPlan, repository_override: &Option<String>) -> (res: (
    IntentPlan,
    LogEvent,
))
    ensures
        res.0@ == with_repository_root(intent_plan@, text_option_view(*repository_override)),
        res.1@ == repository_event(text_option_view(*repository_override), res.0@.repository),
{
    let ghost planned_view = intent_plan@;
    let mut intent_plan = intent_plan;
    let from_environment = repository_override.is_some();
    if let Some(value) = repository_override {
        intent_plan.repository = value.clone();
    }
    let mut resolved = String::from_str("resolved repository root from ");
    if from_environment {
        resolved.append("env");
    } else {
        resolved.append("config");
    }
    resolved.append(" precedence source repository=");
    resolved.append(intent_plan.repository.as_str());
    let ghost rooted = with_repository_root(planned_view, text_option_view(*repository_override));
    assert(intent_plan@ =~= rooted);
    assert(resolved@ =~= "resolved repository root from "@ + (if text_option_view(
        *repository_override,
    ) is Some {
        "env"@
    } else {
        "config"@
    }) + " precedence source repository="@ + rooted.repository);
    let event = make_event(RecordLevel::Debug, "gitenv::intent", "repository_root_resolved", resolved);
    (intent_plan, event)
}

/// Intent and operation planning, against the answers gathered so far,
/// with the events of the stages that finished appended to `log`.
fn plan_operations(
    loaded_config: &LoadedConfig,
    home_directory: &String,
    repository_override: &Option<String>,
    global_selection_excludes: &Vec<String>,
    replies: &CommandReplies,
    log: &mut Vec<LogEvent>,
) -> (res: Result<Result<crate::operation::OperationPlan, ProgramError>, CommandRequest>)
    ensures
        match planned_operations(
            *loaded_config,
            home_directory@,
            text_option_view(*repository_override),
            texts_view(global_selection_excludes@),
            *replies,
        ) {
            Err(q) => res matches Err(r) && r@ == q,
            Ok(Err(e)) => res matches Ok(Err(r)) && r@ == e,
            Ok(Ok(plan)) => res matches Ok(Ok(r)) && r@ == plan,
        },
        events_view(final(log)@) == events_view(old(log)@) + planning_log(
            *loaded_config,
            home_directory@,
            text_option_view(*repository_override),
            texts_view(global_selection_excludes@),
            *replies,
        ),
{
    let intent = derive_intent_plan(loaded_config, home_directory, &replies.intent);
    append_events(log, intent_events(loaded_config, &intent));
    match intent {
        IntentProgress::Needs(q) => {
            assert(events_view(log@) =~= events_view(old(log)@) + planning_log(
                *loaded_config,
                home_directory@,
                text_option_view(*repository_override),
                texts_view(global_selection_excludes@),
                *replies,
            ));
            Err(CommandRequest::Intent(q))
        },
        IntentProgress::Finished(Err(e)) => {
            assert(events_view(log@) =~= events_view(old(log)@) + planning_log(
                *loaded_config,
                home_directory@,
                text_option_view(*repository_override),
                texts_view(global_selection_excludes@),
                *replies,
            ));
            Ok(Err(e))
        },
        IntentProgress::Finished(Ok(intent_plan)) => {
            let (intent_plan, resolved_event) = resolve_repository_root(intent_plan, repository_override);
            let ghost before_resolved = events_view(log@);
            log.push(resolved_event);
            assert(events_view(log@) =~= before_resolved.push(
                repository_event(text_option_view(*repository_override), intent_plan@.repository),
            ));
            proof {
                let chosen = intent_plan_with(intent_plan@);
                assert(chosen@ == intent_plan@);
                lemma_operation_planning_by_view(
                    intent_plan,
                    chosen,
                    home_directory@,
                    texts_view(global_selection_excludes@),
                    replies.operation,
                );
            }
            let ghost after_intent = events_view(log@);
            let operation = derive_operation_plan(
                &intent_plan,
                home_directory,
                global_selection_excludes,
                &replies.operation,
            );
            append_events(log, operation_events(&intent_plan, &operation));
            assert(events_view(log@) =~= events_view(old(log)@) + planning_log(
                *loaded_config,
                home_directory@,
                text_option_view(*repository_override),
                texts_view(global_selection_excludes@),
                *replies,
            ));
            match operation {
                OperationProgress::Needs(q) => Err(CommandRequest::Operation(q)),
                OperationProgress::Finished(Err(e)) => Ok(Err(e)),
                OperationProgress::Finished(Ok(plan)) => Ok(Ok(plan)),
            }
        },
    }
}

/// The `info` command against the answers gathered so far: plans the
/// configuration, inspects every planned entry and renders one line each
/// (colored when stdout takes color), or returns the first stage's error.
/// Selections leave out the names [`default_global_selection_excludes`]
/// gives for `os_name`. The events of the stages that finished are
/// appended to `log`.
pub fn run_info(
    loaded_config: &LoadedConfig,
    home_directory: &String,
    runtime_config: RuntimeConfig,
    os_name: &str,
    repository_override: &Option<String>,
    replies: &CommandReplies,
    log: &mut Vec<LogEvent>,
) -> (res: CommandProgress)
    ensures
        res@ == info_run(
            *loaded_config,
            home_directory@,
            runtime_config.use_color_for_stdout,
            text_option_view(*repository_override),
            global_selection_excludes(os_name@),
            *replies,
        ),
        events_view(final(log)@) == events_view(old(log)@) + info_log(
            *loaded_config,
            home_directory@,
            text_option_view(*repository_override),
            global_selection_excludes(os_name@),
            *replies,
        ),
{
    let excludes = default_global_selection_excludes(os_name);
    let planned = plan_operations(
        loaded_config,
        home_directory,
        repository_override,
        &excludes,
        replies,
        log,
    );
    match planned {
        Err(q) => {
            assert(events_view(log@) =~= events_view(old(log)@) + info_log(
                *loaded_config,
                home_directory@,
                text_option_view(*repository_override),
                global_selection_excludes(os_name@),
                *replies,
            ));
            CommandProgress::Needs(q)
        },
        Ok(Err(e)) => {
            assert(events_view(log@) =~= events_view(old(log)@) + info_log(
                *loaded_config,
                home_directory@,
                text_option_view(*repository_override),
                global_selection_excludes(os_name@),
                *replies,
            ));
            CommandProgress::Finished(Err(e))
        },
        Ok(Ok(plan)) => {
            let inspection = inspect_operation_plan_status(&plan, &replies.inspection);
            assert(inspection_progress_view(inspection) == plan_inspection(plan@, replies.inspection));
            append_events(log, inspection_events(&plan, &inspection));
            assert(events_view(log@) =~= events_view(old(log)@) + info_log(
                *loaded_config,
                home_directory@,
                text_option_view(*repository_override),
                global_selection_excludes(os_name@),
                *replies,
            ));
            match inspection {
                PlanInspectionProgress::Needs(q) => CommandProgress::Needs(
                    CommandRequest::Inspection(q),
                ),
                PlanInspectionProgress::Finished(Err(e)) => CommandProgress::Finished(Err(e)),
                PlanInspectionProgress::Finished(Ok(report)) => CommandProgress::Finished(
                    Ok(
                        ProgramOutput {
                            message: render_inspection_outcomes(
                                &report.outcomes,
                                home_directory,
                                runtime_config.use_color_for_stdout,
                            ),
                        },
                    ),
                ),
            }
        },
    }
}

/// The `apply` command against the answers gathered so far: plans the
/// configuration, applies the plan and renders one line per outcome
/// (colored when stdout takes color), or returns the first stage's error.
/// Selections leave out the names [`default_global_selection_excludes`]
/// gives for `os_name`. The events of the stages that finished are
/// appended to `log`.
pub fn run_apply(
    loaded_config: &LoadedConfig,
    home_directory: &String,
    runtime_config: RuntimeConfig,
    os_name: &str,
    repository_override: &Option<String>,
    replies: &CommandReplies,
    log: &mut Vec<LogEvent>,
) -> (res: CommandProgress)
    ensures
        res@ == apply_run(
            *loaded_config,
            home_directory@,
            runtime_config.use_color_for_stdout,
            text_option_view(*repository_override),
            global_selection_excludes(os_name@),
            *replies,
        ),
        events_view(final(log)@) == events_view(old(log)@) + apply_command_log(
            *loaded_config,
            home_directory@,
            text_option_view(*repository_override),
            global_selection_excludes(os_name@),
            *replies,
        ),
{
    let excludes = default_global_selection_excludes(os_name);
    let planned = plan_operations(
        loaded_config,
        home_directory,
        repository_override,
        &excludes,
        replies,
        log,
    );
    match planned {
        Err(q) => {
            assert(events_view(log@) =~= events_view(old(log)@) + apply_command_log(
                *loaded_config,
                home_directory@,
                text_option_view(*repository_override),
                global_selection_excludes(os_name@),
                *replies,
            ));
            CommandProgress::Needs(q)
        },
        Ok(Err(e)) => {
            assert(events_view(log@) =~= events_view(old(log)@) + apply_command_log(
                *loaded_config,
                home_directory@,
                text_option_view(*repository_override),
                global_selection_excludes(os_name@),
                *replies,
            ));
            CommandProgress::Finished(Err(e))
        },
        Ok(Ok(plan)) => {
            let applied = apply_operation_plan(&plan, &replies.apply);
            assert(apply_progress_view(applied) == plan_apply(plan@, replies.apply));
            append_events(log, apply_events(&plan, &applied));
            assert(events_view(log@) =~= events_view(old(log)@) + apply_command_log(
                *loaded_config,
                home_directory@,
                text_option_view(*repository_override),
                global_selection_excludes(os_name@),
                *replies,
            ));
            match applied {
                ApplyProgress::Needs(q) => CommandProgress::Needs(CommandRequest::Apply(q)),
                ApplyProgress::Finished(Err(e)) => CommandProgress::Finished(Err(e)),
                ApplyProgress::Finished(Ok(report)) => CommandProgress::Finished(
                    Ok(
                        ProgramOutput {
                            message: render_apply_output(
                                &report,
                                home_directory,
                                runtime_config.use_color_for_stdout,
                            ),
                        },
                    ),
                ),
            }
        },
    }
}

} // verus!
