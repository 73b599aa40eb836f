//! Formatting of diagnostic log lines.

use vstd::prelude::*;

use std::time::{Duration, SystemTime};
use time::format_description::well_known::Rfc3339;
use time::OffsetDateTime;

verus! {

#[verifier::external_type_specification]
#[verifier::external_body]
pub struct ExOffsetDateTime(time::OffsetDateTime);

#[verifier::external_type_specification]
#[verifier::external_body]
pub struct ExSystemTime(std::time::SystemTime);

/// The moment `nanos` nanoseconds after the Unix epoch, in UTC, when the
/// time crate can represent it.
pub uninterp spec fn utc_moment_from_unix_nanos(nanos: i128) -> Option<OffsetDateTime>;

/// The RFC 3339 text of a moment, when the time crate can format it.
pub uninterp spec fn rfc3339_text(moment: OffsetDateTime) -> Option<Seq<char>>;

/// How long after `earlier` the moment `now` is; nothing when `now` is
/// earlier.
pub uninterp spec fn elapsed_between(now: SystemTime, earlier: SystemTime) -> Option<Duration>;

/// The whole milliseconds of a duration.
pub uninterp spec fn whole_millis(duration: Duration) -> u128;

/// `OffsetDateTime::from_unix_timestamp_nanos`: the moment for a Unix
/// timestamp in nanoseconds, or nothing when it is out of the crate's range.
/// Its documentation shows that 0 gives the Unix epoch.
#[verifier::external_body]
fn moment_from_unix_nanos(nanos: i128) -> (res: Option<OffsetDateTime>)
    ensures
        res == utc_moment_from_unix_nanos(nanos),
        nanos == 0 ==> res is Some,
{
    OffsetDateTime::from_unix_timestamp_nanos(nanos).ok()
}

/// `OffsetDateTime::format` with the RFC 3339 description: the text of the
/// moment, or nothing when the crate refuses to format it.
#[verifier::external_body]
fn format_moment_rfc3339(moment: OffsetDateTime) -> (res: Option<String>)
    ensures
        match res {
            Some(text) => rfc3339_text(moment) == Some(text@),
            None => rfc3339_text(moment) is None,
        },
{
    moment.format(&Rfc3339).ok()
}

/// `SystemTime::duration_since`: how long after `earlier` the moment `now`
/// is, or nothing when `now` is earlier.
#[verifier::external_body]
fn duration_since(now: SystemTime, earlier: SystemTime) -> (res: Option<Duration>)
    ensures
        res == elapsed_between(now, earlier),
{
    now.duration_since(earlier).ok()
}

/// `Duration::as_millis`: the whole milliseconds of a duration.
#[verifier::external_body]
fn duration_millis(duration: Duration) -> (res: u128)
    ensures
        res == whole_millis(duration),
{
    duration.as_millis()
}

/// Milliseconds from `epoch` to `now`; zero when `now` is before `epoch`.
pub open spec fn millis_since(now: SystemTime, epoch: SystemTime) -> u128 {
    match elapsed_between(now, epoch) {
        Some(duration) => whole_millis(duration),
        None => 0,
    }
}

/// Milliseconds from `epoch` to `now`; zero when `now` is before `epoch`.
pub fn timestamp_millis_from(now: SystemTime, epoch: SystemTime) -> (res: u128)
    ensures
        res == millis_since(now, epoch),
{
    match duration_since(now, epoch) {
        Some(duration) => duration_millis(duration),
        None => 0,
    }
}

/// The text used when no moment can be formatted: the Unix epoch.
pub open spec fn epoch_text() -> Seq<char> {
    "1970-01-01T00:00:00Z"@
}

pub open spec fn text_or_epoch(text: Option<Seq<char>>) -> Seq<char> {
    match text {
        Some(t) => t,
        None => epoch_text(),
    }
}

/// The timestamp of a log line: milliseconds since the Unix epoch, capped
/// at the largest `i64`, in RFC 3339 (UTC); the epoch stands in for a moment
/// out of range.
pub open spec fn iso8601_of_unix_millis(unix_millis: u128) -> Seq<char> {
    let bounded: int = if unix_millis > i64::MAX {
        i64::MAX as int
    } else {
        unix_millis as int
    };
    match utc_moment_from_unix_nanos((bounded * 1_000_000) as i128) {
        Some(moment) => text_or_epoch(rfc3339_text(moment)),
        None => match utc_moment_from_unix_nanos(0) {
            Some(moment) => text_or_epoch(rfc3339_text(moment)),
            None => epoch_text(),
        },
    }
}

fn text_of_moment(moment: OffsetDateTime) -> (res: String)
    ensures
        res@ == text_or_epoch(rfc3339_text(moment)),
{
    match format_moment_rfc3339(moment) {
        Some(text) => text,
        None => String::from_str("1970-01-01T00:00:00Z"),
    }
}

/// The timestamp of a log line, as RFC 3339 text.
pub fn format_unix_millis_iso8601(unix_millis: u128) -> (res: String)
    ensures
        res@ == iso8601_of_unix_millis(unix_millis),
{
    let cap: u128 = 9_223_372_036_854_775_807;
    let bounded: u128 = if unix_millis > cap {
        cap
    } else {
        unix_millis
    };
    let bounded_signed: i128 = bounded as i128;
    assert(bounded_signed * 1_000_000 <= i128::MAX) by (nonlinear_arith)
        requires
            0 <= bounded_signed <= 9_223_372_036_854_775_807,
    ;
    let nanos: i128 = bounded_signed * 1_000_000;
    match moment_from_unix_nanos(nanos) {
        Some(moment) => text_of_moment(moment),
        None => match moment_from_unix_nanos(0) {
            Some(moment) => text_of_moment(moment),
            None => String::from_str("1970-01-01T00:00:00Z"),
        },
    }
}

/// The severity of a log record.
#[derive(Clone, Copy, Debug, PartialEq, Eq, Structural)]
pub enum RecordLevel {
    Error,
    Warn,
    Info,
    Debug,
    Trace,
}

/// The name a severity is printed under.
pub open spec fn level_name(level: RecordLevel) -> Seq<char> {
    match level {
        RecordLevel::Error => "ERROR"@,
        RecordLevel::Warn => "WARN"@,
        RecordLevel::Info => "INFO"@,
        RecordLevel::Debug => "DEBUG"@,
        RecordLevel::Trace => "TRACE"@,
    }
}

/// The escape code a severity is colored with.
pub open spec fn level_color_code(level: RecordLevel) -> Seq<char> {
    match level {
        RecordLevel::Error => "\x1b[31m"@,
        RecordLevel::Warn => "\x1b[33m"@,
        RecordLevel::Info => "\x1b[32m"@,
        RecordLevel::Debug => "\x1b[34m"@,
        RecordLevel::Trace => "\x1b[35m"@,
    }
}

/// The escape code a severity is colored with.
pub fn level_color(level: RecordLevel) -> (res: String)
    ensures
        res@ == level_color_code(level),
{
    match level {
        RecordLevel::Error => String::from_str("\x1b[31m"),
        RecordLevel::Warn => String::from_str("\x1b[33m"),
        RecordLevel::Info => String::from_str("\x1b[32m"),
        RecordLevel::Debug => String::from_str("\x1b[34m"),
        RecordLevel::Trace => String::from_str("\x1b[35m"),
    }
}

fn level_text(level: RecordLevel) -> (res: String)
    ensures
        res@ == level_name(level),
{
    match level {
        RecordLevel::Error => String::from_str("ERROR"),
        RecordLevel::Warn => String::from_str("WARN"),
        RecordLevel::Info => String::from_str("INFO"),
        RecordLevel::Debug => String::from_str("DEBUG"),
        RecordLevel::Trace => String::from_str("TRACE"),
    }
}

/// One log line: `[timestamp] [LEVEL] target: message`, the level colored
/// when color is on.
pub open spec fn log_line(
    level: RecordLevel,
    target: Seq<char>,
    message: Seq<char>,
    timestamp_millis: u128,
    use_color: bool,
) -> Seq<char> {
    let rendered_level = if use_color {
        level_color_code(level) + level_name(level) + "\x1b[0m"@
    } else {
        level_name(level)
    };
    "["@ + iso8601_of_unix_millis(timestamp_millis) + "] ["@ + rendered_level + "] "@ + target
        + ": "@ + message
}

/// One log line for a record.
pub fn format_record(
    level: RecordLevel,
    target: &str,
    message: &str,
    timestamp_millis: u128,
    use_color: bool,
) -> (res: String)
    ensures
        res@ == log_line(level, target@, message@, timestamp_millis, use_color),
{
    let timestamp = format_unix_millis_iso8601(timestamp_millis);
    let rendered_level = if use_color {
        let mut colored = level_color(level);
        colored.append(level_text(level).as_str());
        colored.append("\x1b[0m");
        colored
    } else {
        level_text(level)
    };
    let mut line = String::from_str("[");
    line.append(timestamp.as_str());
    line.append("] [");
    line.append(rendered_level.as_str());
    line.append("] ");
    line.append(target);
    line.append(": ");
    line.append(message);
    line
}


// ---------------------------------------------------------------------------
// Log events
// ---------------------------------------------------------------------------

/// One diagnostic event a stage reports: its severity, the component it
/// comes from, and its text, `event=<name> <details>`.
#[derive(Debug, PartialEq, Eq)]
pub struct LogEvent {
    pub level: RecordLevel,
    pub target: String,
    pub message: String,
}

impl Clone for LogEvent {
    fn clone(&self) -> (res: Self)
        ensures
            res == *self,
    {
        LogEvent { level: self.level, target: self.target.clone(), message: self.message.clone() }
    }
}

pub struct LogEventView {
    pub level: RecordLevel,
    pub target: Seq<char>,
    pub message: Seq<char>,
}

impl View for LogEvent {
    type V = LogEventView;

    open spec fn view(&self) -> LogEventView {
        LogEventView { level: self.level, target: self.target@, message: self.message@ }
    }
}

pub open spec fn events_view(events: Seq<LogEvent>) -> Seq<LogEventView> {
    events.map_values(|e: LogEvent| e@)
}

/// The event `name` of `target` with `details`.
pub open spec fn event_of(level: RecordLevel, target: Seq<char>, name: Seq<char>, details: Seq<char>) -> LogEventView {
    LogEventView { level, target, message: "event="@ + name + " "@ + details }
}

/// The log line of an event (see [`log_line`]).
pub open spec fn event_line(event: LogEventView, timestamp_millis: u128, use_color: bool) -> Seq<char> {
    log_line(event.level, event.target, event.message, timestamp_millis, use_color)
}

/// Builds the event `name` of `target` with `details`.
pub fn make_event(level: RecordLevel, target: &str, name: &str, details: String) -> (res: LogEvent)
    ensures
        res@ == event_of(level, target@, name@, details@),
{
    let mut message = String::from_str("event=");
    message.append(name);
    message.append(" ");
    message.append(details.as_str());
    LogEvent { level, target: String::from_str(target), message }
}

/// The log line of an event.
pub fn format_event(event: &LogEvent, timestamp_millis: u128, use_color: bool) -> (res: String)
    ensures
        res@ == event_line(event@, timestamp_millis, use_color),
{
    format_record(event.level, event.target.as_str(), event.message.as_str(), timestamp_millis, use_color)
}

/// The decimal digit for `d`.
pub open spec fn digit_char(d: int) -> char {
    if d == 0 {
        '0'
    } else if d == 1 {
        '1'
    } else if d == 2 {
        '2'
    } else if d == 3 {
        '3'
    } else if d == 4 {
        '4'
    } else if d == 5 {
        '5'
    } else if d == 6 {
        '6'
    } else if d == 7 {
        '7'
    } else if d == 8 {
        '8'
    } else {
        '9'
    }
}

/// The decimal text of a number.
pub open spec fn decimal(n: nat) -> Seq<char>
    decreases n,
{
    if n < 10 {
        seq![digit_char(n as int)]
    } else {
        decimal(n / 10) + seq![digit_char((n % 10) as int)]
    }
}

fn digit(d: usize) -> (res: char)
    requires
        d < 10,
    ensures
        res == digit_char(d as int),
{
    if d == 0 {
        '0'
    } else if d == 1 {
        '1'
    } else if d == 2 {
        '2'
    } else if d == 3 {
        '3'
    } else if d == 4 {
        '4'
    } else if d == 5 {
        '5'
    } else if d == 6 {
        '6'
    } else if d == 7 {
        '7'
    } else if d == 8 {
        '8'
    } else {
        '9'
    }
}

/// The decimal text of `n`.
pub fn decimal_text(n: usize) -> (res: String)
    ensures
        res@ == decimal(n as nat),
    decreases n,
{
    if n < 10 {
        let mut res = String::new();
        crate::text::push_char(&mut res, digit(n));
        assert(res@ =~= seq![digit_char(n as int)]);
        res
    } else {
        let mut res = decimal_text(n / 10);
        crate::text::push_char(&mut res, digit(n % 10));
        res
    }
}

/// `prefix` followed by the decimal text of `n`.
pub fn labelled_count(prefix: &str, n: usize) -> (res: String)
    ensures
        res@ == prefix@ + decimal(n as nat),
{
    let mut res = String::from_str(prefix);
    res.append(decimal_text(n).as_str());
    res
}

} // verus!
