//! Command-line model and the rendering of inspection and apply results.

use vstd::prelude::*;

use crate::actions::{ApplyOperationOutcome, ApplyOperationOutcomeView, ApplyOperationReport};
use crate::color::ColorMode;
use crate::errors::{ProgramError, ProgramErrorView, SourceAvailability, SourceAvailabilityView};
use crate::operation::{
    operation_of, OperationAction, OperationActionView, OperationPlan, OperationPlanningIssue,
    OperationPlanningIssueView, PlannedOperationAction, PlannedOperationActionView,
};
use crate::status::{
    inspect_plan_with, outcomes_view, plan_inspection, CopyInspection, CopyInspectionState,
    CopyInspectionView, InspectionCursor, InspectionReplies, InspectionRequest,
    InspectionRequestView, OperationInspectionOutcome, OperationInspectionOutcomeView,
    SymlinkInspection, SymlinkInspectionState, SymlinkInspectionStateView, SymlinkInspectionView,
};
use crate::text::{
    chars_of, component_position, components_of, path_components, position_after_components,
    seq_join, string_from_char_range, text_without_trailing, texts_view, trim_back, trim_front,
    trimmed_text, without_trailing,
};

verus! {

// ---------------------------------------------------------------------------
// Command line
// ---------------------------------------------------------------------------

/// Diagnostic log level for the `--log-level` flag.
#[derive(Clone, Copy, Debug, PartialEq, Eq, Structural)]
pub enum LogLevel {
    /// Suppress all log output.
    Off,
    /// Log only errors.
    Error,
    /// Log errors and warnings (default).
    Warn,
    /// Log errors, warnings, and informational messages.
    Info,
    /// Log errors, warnings, info, and debug messages.
    Debug,
    /// Log everything, including trace-level messages.
    Trace,
}

/// The parsed command line.
#[derive(Debug, PartialEq, Eq)]
pub struct Cli {
    /// The command to run; `info` when none is given.
    pub command: Option<Command>,
    /// Path to a configuration file (`-c`/`--config`, or `GITENV_CONFIG`).
    pub config_path: Option<String>,
    /// The diagnostic log level (`--log-level`, default `warn`).
    pub log_level: LogLevel,
    /// Color output (`--color` or `COLOR`, default `auto`).
    pub color: ColorMode,
}

/// The commands of the program.
#[derive(Clone, Copy, Debug, PartialEq, Eq, Structural)]
pub enum Command {
    /// Show the status of all configured operations.
    Info,
    /// Apply all configured operations to the system.
    Apply,
}

// ---------------------------------------------------------------------------
// Paths and colors
// ---------------------------------------------------------------------------

pub open spec fn ansi_reset() -> Seq<char> {
    "\x1b[0m"@
}

pub open spec fn ansi_green() -> Seq<char> {
    "\x1b[32m"@
}

pub open spec fn ansi_yellow() -> Seq<char> {
    "\x1b[33m"@
}

pub open spec fn ansi_red() -> Seq<char> {
    "\x1b[31m"@
}

pub open spec fn ansi_gray() -> Seq<char> {
    "\x1b[90m"@
}

/// The colors of the rendered states.
#[derive(Clone, Copy, Debug, PartialEq, Eq, Structural)]
pub enum Tint {
    Green,
    Yellow,
    Red,
    Gray,
}

pub open spec fn tint_code(tint: Tint) -> Seq<char> {
    match tint {
        Tint::Green => ansi_green(),
        Tint::Yellow => ansi_yellow(),
        Tint::Red => ansi_red(),
        Tint::Gray => ansi_gray(),
    }
}

/// `text` wrapped in the color's escape codes when color is on.
pub open spec fn colorized(text: Seq<char>, tint: Tint, use_color: bool) -> Seq<char> {
    if use_color {
        tint_code(tint) + text + ansi_reset()
    } else {
        text
    }
}

/// `text` wrapped in the color's escape codes when color is on.
pub fn colorize(text: &str, tint: Tint, use_color: bool) -> (res: String)
    ensures
        res@ == colorized(text@, tint, use_color),
{
    if use_color {
        let mut res = match tint {
            Tint::Green => String::from_str("\x1b[32m"),
            Tint::Yellow => String::from_str("\x1b[33m"),
            Tint::Red => String::from_str("\x1b[31m"),
            Tint::Gray => String::from_str("\x1b[90m"),
        };
        res.append(text);
        res.append("\x1b[0m");
        res
    } else {
        String::from_str(text)
    }
}

/// A path for display, as `Path::strip_prefix` sees it: when the home
/// directory's components lead the path's, `~`, followed by `/` and what is
/// left of the path's text if anything is; the path unchanged otherwise.
/// What is left loses separators and `.` segments at both ends, except
/// when the home directory has no components at all: then it is the whole
/// path, which loses them only at its end.
pub open spec fn home_display(path: Seq<char>, home: Seq<char>) -> Seq<char> {
    let hc = path_components(home);
    if hc.is_prefix_of(path_components(path)) {
        let rest = if hc.len() == 0 {
            without_trailing(path)
        } else {
            trim_back(trim_front(path.subrange(component_position(path, hc.len()), path.len() as int)))
        };
        if rest.len() == 0 {
            seq!['~']
        } else {
            seq!['~', '/'] + rest
        }
    } else {
        path
    }
}

/// A path for display, with the home directory shown as `~`.
pub fn display_path_with_home(path: &String, home: &String) -> (res: String)
    ensures
        res@ == home_display(path@, home@),
{
    let hc = components_of(home);
    let pc = components_of(path);
    if hc.len() > pc.len() {
        assert(!texts_view(hc@).is_prefix_of(texts_view(pc@)));
        return path.clone();
    }
    let mut i: usize = 0;
    while i < hc.len()
        invariant
            i <= hc.len() <= pc.len(),
            texts_view(hc@) == path_components(home@),
            texts_view(pc@) == path_components(path@),
            forall|k: int| 0 <= k < i ==> hc@[k]@ == pc@[k]@,
        decreases hc.len() - i,
    {
        if !crate::text::same_text(&hc[i], &pc[i]) {
            assert(texts_view(hc@)[i as int] != texts_view(pc@)[i as int]);
            assert(!texts_view(hc@).is_prefix_of(texts_view(pc@)));
            return path.clone();
        }
        i += 1;
    }
    assert(texts_view(hc@).is_prefix_of(texts_view(pc@))) by {
        assert(texts_view(pc@).take(hc.len() as int) =~= texts_view(hc@));
    }
    let chars = chars_of(path.as_str());
    let rest = if hc.len() == 0 {
        text_without_trailing(&chars)
    } else {
        let pos = position_after_components(&chars, hc.len());
        trimmed_text(&chars, pos)
    };
    let rest_chars = chars_of(rest.as_str());
    proof {
        reveal_strlit("~");
        reveal_strlit("~/");
    }
    if rest_chars.len() == 0 {
        String::from_str("~")
    } else {
        let mut shown = String::from_str("~/");
        shown.append(rest.as_str());
        shown
    }
}

// ---------------------------------------------------------------------------
// Inspection lines
// ---------------------------------------------------------------------------

/// How an availability reads for `label` (`source` or `source root`).
pub open spec fn availability_state(availability: SourceAvailabilityView, label: Seq<char>) -> Seq<char> {
    match availability {
        SourceAvailabilityView::Available => label + " is available"@,
        SourceAvailabilityView::Missing => label + " is missing"@,
        SourceAvailabilityView::Unreadable { message, .. } => label + " is unreadable ("@ + message
            + ")"@,
    }
}

/// How an availability reads for `label`.
pub fn availability_state_text(availability: &SourceAvailability, label: &str) -> (res: String)
    ensures
        res@ == availability_state(availability@, label@),
{
    let mut res = String::from_str(label);
    match availability {
        SourceAvailability::Available => res.append(" is available"),
        SourceAvailability::Missing => res.append(" is missing"),
        SourceAvailability::Unreadable { message, .. } => {
            res.append(" is unreadable (");
            res.append(message.as_str());
            res.append(")");
        },
    }
    res
}

/// `target -> source` for a symlink, `target <- source` for a copy, both
/// shown with `~` for the home directory.
pub open spec fn arrow_line(action: OperationActionView, home: Seq<char>) -> Seq<char> {
    match action {
        OperationActionView::Symlink(op) => home_display(op.target, home) + " -> "@ + home_display(
            op.source,
            home,
        ),
        OperationActionView::Copy(op) => home_display(op.target, home) + " <- "@ + home_display(
            op.source,
            home,
        ),
    }
}

pub open spec fn symlink_state_text(state: SymlinkInspectionStateView, home: Seq<char>, use_color: bool) -> Seq<char> {
    match state {
        SymlinkInspectionStateView::Correct => colorized("ok"@, Tint::Green, use_color),
        SymlinkInspectionStateView::Missing => colorized("not yet set up"@, Tint::Yellow, use_color),
        SymlinkInspectionStateView::NotASymlink => colorized("not a symlink"@, Tint::Red, use_color),
        SymlinkInspectionStateView::PointsElsewhere { current_target } => colorized(
            "points to "@ + home_display(current_target, home),
            Tint::Red,
            use_color,
        ),
    }
}

pub open spec fn copy_state_text(state: CopyInspectionState, use_color: bool) -> Seq<char> {
    match state {
        CopyInspectionState::Correct => colorized("ok"@, Tint::Green, use_color),
        CopyInspectionState::Missing => colorized("not yet set up"@, Tint::Yellow, use_color),
        CopyInspectionState::NotAFile => colorized("not a file"@, Tint::Red, use_color),
        CopyInspectionState::Differs => colorized("differs from source"@, Tint::Red, use_color),
    }
}

/// The line for one inspection outcome.
pub open spec fn inspection_line(outcome: OperationInspectionOutcomeView, home: Seq<char>, use_color: bool) -> Seq<char> {
    match outcome {
        OperationInspectionOutcomeView::Symlink(i) => home_display(i.target, home) + " -> "@
            + home_display(i.source, home) + "   "@ + symlink_state_text(i.state, home, use_color),
        OperationInspectionOutcomeView::Copy(i) => home_display(i.target, home) + " <- "@
            + home_display(i.source, home) + "   "@ + copy_state_text(i.state, use_color),
        OperationInspectionOutcomeView::Unavailable(a) => arrow_line(a.action, home) + "   "@
            + if a.skip_reason is Some {
            colorized("target directory is missing"@, Tint::Gray, use_color)
        } else {
            colorized(availability_state(a.source_availability, "source"@), Tint::Red, use_color)
        },
        OperationInspectionOutcomeView::PlanningIssue(i) => home_display(i.path, home) + "   "@
            + colorized(availability_state(i.source_availability, "source root"@), Tint::Red, use_color),
    }
}

fn arrow_text(action: &OperationAction, home: &String) -> (res: String)
    ensures
        res@ == arrow_line(action@, home@),
{
    match action {
        OperationAction::Symlink(op) => {
            let mut res = display_path_with_home(&op.target, home);
            res.append(" -> ");
            res.append(display_path_with_home(&op.source, home).as_str());
            res
        },
        OperationAction::Copy(op) => {
            let mut res = display_path_with_home(&op.target, home);
            res.append(" <- ");
            res.append(display_path_with_home(&op.source, home).as_str());
            res
        },
    }
}

fn render_symlink_inspection_line_with_color(inspection: &SymlinkInspection, home: &String, use_color: bool) -> (res:
    String)
    ensures
        res@ == inspection_line(
            OperationInspectionOutcomeView::Symlink(inspection@),
            home@,
            use_color,
        ),
{
    let state = match &inspection.state {
        SymlinkInspectionState::Correct => colorize("ok", Tint::Green, use_color),
        SymlinkInspectionState::Missing => colorize("not yet set up", Tint::Yellow, use_color),
        SymlinkInspectionState::NotASymlink => colorize("not a symlink", Tint::Red, use_color),
        SymlinkInspectionState::PointsElsewhere { current_target } => {
            let mut text = String::from_str("points to ");
            text.append(display_path_with_home(current_target, home).as_str());
            colorize(text.as_str(), Tint::Red, use_color)
        },
    };
    let mut res = display_path_with_home(&inspection.target, home);
    res.append(" -> ");
    res.append(display_path_with_home(&inspection.source, home).as_str());
    res.append("   ");
    res.append(state.as_str());
    res
}

fn render_copy_inspection_line_with_color(inspection: &CopyInspection, home: &String, use_color: bool) -> (res:
    String)
    ensures
        res@ == inspection_line(OperationInspectionOutcomeView::Copy(inspection@), home@, use_color),
{
    let state = match inspection.state {
        CopyInspectionState::Correct => colorize("ok", Tint::Green, use_color),
        CopyInspectionState::Missing => colorize("not yet set up", Tint::Yellow, use_color),
        CopyInspectionState::NotAFile => colorize("not a file", Tint::Red, use_color),
        CopyInspectionState::Differs => colorize("differs from source", Tint::Red, use_color),
    };
    let mut res = display_path_with_home(&inspection.target, home);
    res.append(" <- ");
    res.append(display_path_with_home(&inspection.source, home).as_str());
    res.append("   ");
    res.append(state.as_str());
    res
}

fn render_unavailable_action_line_with_color(
    action_entry: &PlannedOperationAction,
    home: &String,
    use_color: bool,
) -> (res: String)
    ensures
        res@ == inspection_line(
            OperationInspectionOutcomeView::Unavailable(action_entry@),
            home@,
            use_color,
        ),
{
    let state = if action_entry.skip_reason.is_some() {
        colorize("target directory is missing", Tint::Gray, use_color)
    } else {
        let text = availability_state_text(&action_entry.source_availability, "source");
        colorize(text.as_str(), Tint::Red, use_color)
    };
    let mut res = arrow_text(&action_entry.action, home);
    res.append("   ");
    res.append(state.as_str());
    res
}

fn render_planning_issue_line_with_color(issue: &OperationPlanningIssue, home: &String, use_color: bool) -> (res:
    String)
    ensures
        res@ == inspection_line(OperationInspectionOutcomeView::PlanningIssue(issue@), home@, use_color),
{
    let text = availability_state_text(&issue.source_availability, "source root");
    let mut res = display_path_with_home(&issue.path, home);
    res.append("   ");
    res.append(colorize(text.as_str(), Tint::Red, use_color).as_str());
    res
}

/// The line for one inspection outcome.
pub fn render_operation_inspection_line_with_color(
    outcome: &OperationInspectionOutcome,
    home: &String,
    use_color: bool,
) -> (res: String)
    ensures
        res@ == inspection_line(outcome@, home@, use_color),
{
    match outcome {
        OperationInspectionOutcome::Symlink(i) => render_symlink_inspection_line_with_color(
            i,
            home,
            use_color,
        ),
        OperationInspectionOutcome::Copy(i) => render_copy_inspection_line_with_color(
            i,
            home,
            use_color,
        ),
        OperationInspectionOutcome::Unavailable(a) => render_unavailable_action_line_with_color(
            a,
            home,
            use_color,
        ),
        OperationInspectionOutcome::PlanningIssue(i) => render_planning_issue_line_with_color(
            i,
            home,
            use_color,
        ),
    }
}

/// The lines of a list of rendered items, or `empty` when there is none.
pub open spec fn lines_or(lines: Seq<Seq<char>>, empty: Seq<char>) -> Seq<char> {
    if lines.len() == 0 {
        empty
    } else {
        seq_join(lines, "\n"@)
    }
}

/// The inspection output: one line per outcome, in order.
pub open spec fn inspection_output(
    outcomes: Seq<OperationInspectionOutcomeView>,
    home: Seq<char>,
    use_color: bool,
) -> Seq<char> {
    lines_or(
        outcomes.map_values(|o: OperationInspectionOutcomeView| inspection_line(o, home, use_color)),
        "No operations to inspect."@,
    )
}

fn join_lines(lines: &Vec<String>, empty: &str) -> (res: String)
    ensures
        res@ == lines_or(texts_view(lines@), empty@),
{
    if lines.len() == 0 {
        String::from_str(empty)
    } else {
        crate::text::join_texts(lines, "\n")
    }
}

/// The inspection output for outcomes already gathered.
pub fn render_inspection_outcomes(
    outcomes: &Vec<OperationInspectionOutcome>,
    home: &String,
    use_color: bool,
) -> (res: String)
    ensures
        res@ == inspection_output(outcomes_view(outcomes@), home@, use_color),
{
    let mut lines: Vec<String> = Vec::new();
    let ghost all = outcomes_view(outcomes@).map_values(
        |o: OperationInspectionOutcomeView| inspection_line(o, home@, use_color),
    );
    let mut i: usize = 0;
    while i < outcomes.len()
        invariant
            i <= outcomes.len(),
            all == outcomes_view(outcomes@).map_values(
                |o: OperationInspectionOutcomeView| inspection_line(o, home@, use_color),
            ),
            texts_view(lines@) == all.take(i as int),
        decreases outcomes.len() - i,
    {
        let line = render_operation_inspection_line_with_color(&outcomes[i], home, use_color);
        let ghost before = texts_view(lines@);
        assert(all[i as int] == line@);
        lines.push(line);
        assert(texts_view(lines@) =~= before.push(line@));
        assert(all.take(i as int + 1) =~= all.take(i as int).push(all[i as int]));
        i += 1;
    }
    assert(all.take(outcomes.len() as int) == all);
    join_lines(&lines, "No operations to inspect.")
}

/// Where rendering the inspection of a plan stands.
#[derive(Debug, PartialEq, Eq)]
pub enum InspectionOutputProgress {
    Finished(Result<String, ProgramError>),
    Needs(InspectionRequest),
}

/// The inspection output of a plan, against the inspection answers gathered
/// so far: the inspection's error when it fails, else one line per entry.
pub fn render_default_inspection_output(
    operation_plan: &OperationPlan,
    home: &String,
    use_color: bool,
    replies: &InspectionReplies,
) -> (res: InspectionOutputProgress)
    ensures
        match plan_inspection(operation_plan@, *replies) {
            Err(q) => res matches InspectionOutputProgress::Needs(r) && r@ == q,
            Ok(Err(e)) => res matches InspectionOutputProgress::Finished(Err(r)) && r@ == e,
            Ok(Ok(o)) => res matches InspectionOutputProgress::Finished(Ok(r)) && r@
                == inspection_output(o, home@, use_color),
        },
{
    let mut cursor = InspectionCursor::new();
    match inspect_plan_with(operation_plan, replies, &mut cursor) {
        Err(q) => InspectionOutputProgress::Needs(q),
        Ok(Err(e)) => InspectionOutputProgress::Finished(Err(e)),
        Ok(Ok(report)) => InspectionOutputProgress::Finished(
            Ok(render_inspection_outcomes(&report.outcomes, home, use_color)),
        ),
    }
}

// ---------------------------------------------------------------------------
// Apply lines
// ---------------------------------------------------------------------------

/// The line for one apply outcome.
pub open spec fn apply_line(outcome: ApplyOperationOutcomeView, home: Seq<char>, use_color: bool) -> Seq<char> {
    match outcome {
        ApplyOperationOutcomeView::Applied(OperationActionView::Symlink(op)) => colorized(
            "created symlink"@,
            Tint::Green,
            use_color,
        ) + " "@ + home_display(op.target, home) + " -> "@ + home_display(op.source, home),
        ApplyOperationOutcomeView::Applied(OperationActionView::Copy(op)) => colorized(
            "copied"@,
            Tint::Green,
            use_color,
        ) + " "@ + home_display(op.source, home) + " to "@ + home_display(op.target, home),
        ApplyOperationOutcomeView::SkippedExistingTarget(OperationActionView::Symlink(op)) =>
            colorized("skipped symlink"@, Tint::Yellow, use_color) + " "@ + home_display(
            op.target,
            home,
        ) + " (already exists)"@,
        ApplyOperationOutcomeView::SkippedExistingTarget(OperationActionView::Copy(op)) =>
            colorized("skipped copy"@, Tint::Yellow, use_color) + " "@ + home_display(op.target, home)
            + " (already exists)"@,
        ApplyOperationOutcomeView::SkippedMissingTargetDirectory(OperationActionView::Symlink(op)) =>
            colorized("skipped symlink"@, Tint::Gray, use_color) + " "@ + home_display(op.target, home)
            + " (target directory is missing)"@,
        ApplyOperationOutcomeView::SkippedMissingTargetDirectory(OperationActionView::Copy(op)) =>
            colorized("skipped copy"@, Tint::Gray, use_color) + " "@ + home_display(op.target, home)
            + " (target directory is missing)"@,
        ApplyOperationOutcomeView::UnsupportedOperation(OperationActionView::Symlink(op)) =>
            colorized("unsupported: symlink"@, Tint::Red, use_color) + " "@ + home_display(
            op.target,
            home,
        ) + " -> "@ + home_display(op.source, home),
        ApplyOperationOutcomeView::UnsupportedOperation(OperationActionView::Copy(op)) => colorized(
            "unsupported: copy"@,
            Tint::Red,
            use_color,
        ) + " "@ + home_display(op.source, home) + " to "@ + home_display(op.target, home),
    }
}

fn prefixed_pair(label: String, first: &String, middle: &str, second: &String, home: &String) -> (res:
    String)
    ensures
        res@ == label@ + " "@ + home_display(first@, home@) + middle@ + home_display(second@, home@),
{
    let mut res = label;
    res.append(" ");
    res.append(display_path_with_home(first, home).as_str());
    res.append(middle);
    res.append(display_path_with_home(second, home).as_str());
    res
}

fn prefixed_target(label: String, target: &String, suffix: &str, home: &String) -> (res: String)
    ensures
        res@ == label@ + " "@ + home_display(target@, home@) + suffix@,
{
    let mut res = label;
    res.append(" ");
    res.append(display_path_with_home(target, home).as_str());
    res.append(suffix);
    res
}

/// The line for one apply outcome.
pub fn render_apply_outcome_line_with_color(
    outcome: &ApplyOperationOutcome,
    home: &String,
    use_color: bool,
) -> (res: String)
    ensures
        res@ == apply_line(outcome@, home@, use_color),
{
    match outcome {
        ApplyOperationOutcome::Applied(OperationAction::Symlink(op)) => prefixed_pair(
            colorize("created symlink", Tint::Green, use_color),
            &op.target,
            " -> ",
            &op.source,
            home,
        ),
        ApplyOperationOutcome::Applied(OperationAction::Copy(op)) => prefixed_pair(
            colorize("copied", Tint::Green, use_color),
            &op.source,
            " to ",
            &op.target,
            home,
        ),
        ApplyOperationOutcome::SkippedExistingTarget(OperationAction::Symlink(op)) => prefixed_target(
            colorize("skipped symlink", Tint::Yellow, use_color),
            &op.target,
            " (already exists)",
            home,
        ),
        ApplyOperationOutcome::SkippedExistingTarget(OperationAction::Copy(op)) => prefixed_target(
            colorize("skipped copy", Tint::Yellow, use_color),
            &op.target,
            " (already exists)",
            home,
        ),
        ApplyOperationOutcome::SkippedMissingTargetDirectory(OperationAction::Symlink(op)) =>
            prefixed_target(
            colorize("skipped symlink", Tint::Gray, use_color),
            &op.target,
            " (target directory is missing)",
            home,
        ),
        ApplyOperationOutcome::SkippedMissingTargetDirectory(OperationAction::Copy(op)) =>
            prefixed_target(
            colorize("skipped copy", Tint::Gray, use_color),
            &op.target,
            " (target directory is missing)",
            home,
        ),
        ApplyOperationOutcome::UnsupportedOperation(OperationAction::Symlink(op)) => prefixed_pair(
            colorize("unsupported: symlink", Tint::Red, use_color),
            &op.target,
            " -> ",
            &op.source,
            home,
        ),
        ApplyOperationOutcome::UnsupportedOperation(OperationAction::Copy(op)) => prefixed_pair(
            colorize("unsupported: copy", Tint::Red, use_color),
            &op.source,
            " to ",
            &op.target,
            home,
        ),
    }
}

/// The apply output: one line per outcome, in order.
pub open spec fn apply_output(outcomes: Seq<ApplyOperationOutcomeView>, home: Seq<char>, use_color: bool) -> Seq<char> {
    lines_or(
        outcomes.map_values(|o: ApplyOperationOutcomeView| apply_line(o, home, use_color)),
        "No operations to apply."@,
    )
}

/// The apply output of a report: one line per outcome, in order.
pub fn render_apply_output(apply_report: &ApplyOperationReport, home: &String, use_color: bool) -> (res:
    String)
    ensures
        res@ == apply_output(
            crate::actions::apply_outcomes_view(apply_report.outcomes@),
            home@,
            use_color,
        ),
{
    let mut lines: Vec<String> = Vec::new();
    let ghost all = crate::actions::apply_outcomes_view(apply_report.outcomes@).map_values(
        |o: ApplyOperationOutcomeView| apply_line(o, home@, use_color),
    );
    let mut i: usize = 0;
    while i < apply_report.outcomes.len()
        invariant
            i <= apply_report.outcomes.len(),
            all == crate::actions::apply_outcomes_view(apply_report.outcomes@).map_values(
                |o: ApplyOperationOutcomeView| apply_line(o, home@, use_color),
            ),
            texts_view(lines@) == all.take(i as int),
        decreases apply_report.outcomes.len() - i,
    {
        let line = render_apply_outcome_line_with_color(&apply_report.outcomes[i], home, use_color);
        let ghost before = texts_view(lines@);
        assert(all[i as int] == line@);
        lines.push(line);
        assert(texts_view(lines@) =~= before.push(line@));
        assert(all.take(i as int + 1) =~= all.take(i as int).push(all[i as int]));
        i += 1;
    }
    assert(all.take(apply_report.outcomes.len() as int) == all);
    join_lines(&lines, "No operations to apply.")
}

} // verus!
