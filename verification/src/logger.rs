use vstd::prelude::*;

verus! {

/// Verbosity of a log message, from the most chatty to the most severe.
#[derive(PartialEq, Eq, Structural, Clone, Copy, Debug)]
pub enum Level {
    Debug,
    Verbose,
    Notice,
    Warning,
}

/// The position of a level on the scale `Debug < Verbose < Notice < Warning`.
pub open spec fn level_rank(l: Level) -> int {
    match l {
        Level::Debug => 0,
        Level::Verbose => 1,
        Level::Notice => 2,
        Level::Warning => 3,
    }
}

impl Level {
    /// Whether a logger configured at `self` lets a message of level `other` through:
    /// that is the case exactly when `other` is at least as severe as `self`.
    pub fn contains(&self, other: &Level) -> (r: bool)
        ensures
            r == (level_rank(*other) >= level_rank(*self)),
    {
        match *self {
            Level::Debug => true,
            Level::Verbose => *other != Level::Debug,
            Level::Notice => *other == Level::Notice || *other == Level::Warning,
            Level::Warning => *other == Level::Warning,
        }
    }
}

/// A request to the logging thread. Each part is optional; the parts that are present say
/// what the request is (see `log_action_is`).
pub struct LogEvent {
    /// Whether the request carries a new output to write to.
    pub has_output: bool,
    /// A level: the message's when there is a message, else the logger's new level.
    pub level: Option<Level>,
    /// A message to log.
    pub message: Option<String>,
    /// Whether the request carries a new syslog writer (or the removal of one).
    pub has_syslog: bool,
    /// A status to end the process with once the request is handled.
    pub exit: Option<i32>,
}

/// What the logging thread does with a request.
pub enum LogAction {
    /// Write this line (the message and a newline) to the output, and send the message to
    /// syslog at this level when a syslog writer is set.
    Write(String, Level),
    /// The message is below the logger's level: nothing is written.
    Filtered,
    /// The logger's level became the request's level.
    SetLevel,
    /// Switch to the request's output.
    SetOutput,
    /// Switch to the request's syslog writer.
    SetSyslog,
    /// The request holds none of the combinations above.
    Unknown,
}

/// The action the logging thread takes on a request with these parts at level `current`,
/// by kind: a message with a level is written when the level lets it through; a level alone
/// becomes the new level; then comes a new output; then a new syslog writer; anything else
/// is unknown.
pub open spec fn log_action_is(
    a: LogAction,
    current: Level,
    level: Option<Level>,
    message: Option<Seq<char>>,
    has_output: bool,
    has_syslog: bool,
) -> bool {
    match (level, message) {
        (Some(lvl), Some(msg)) => if level_rank(lvl) >= level_rank(current) {
            a matches LogAction::Write(line, l) && line@ == msg + "\n"@ && l == lvl
        } else {
            a is Filtered
        },
        (Some(lvl), None) => a is SetLevel,
        _ => if has_output {
            a is SetOutput
        } else if has_syslog {
            a is SetSyslog
        } else {
            a is Unknown
        },
    }
}

/// The message of a request, as characters.
pub open spec fn message_view(m: Option<String>) -> Option<Seq<char>> {
    match m {
        Some(s) => Some(s@),
        None => None,
    }
}

/// The parts of a request that decide what the logging thread does, as plain values.
pub struct LogRequest {
    pub level: Option<Level>,
    pub message: Option<Seq<char>>,
    pub has_output: bool,
    pub has_syslog: bool,
}

/// The plain parts of a request.
pub open spec fn request_of(e: LogEvent) -> LogRequest {
    LogRequest {
        level: e.level,
        message: message_view(e.message),
        has_output: e.has_output,
        has_syslog: e.has_syslog,
    }
}

/// Whether a request is a level alone, which sets the logger's level.
pub open spec fn sets_level(r: LogRequest) -> bool {
    r.level is Some && r.message is None
}

/// The logger's level after the request `r` at level `current`.
pub open spec fn next_level(current: Level, r: LogRequest) -> Level {
    if sets_level(r) {
        r.level->0
    } else {
        current
    }
}

/// The line that the request `r` writes at level `current`: its message and a newline, when
/// it has a message whose level is at least `current`.
pub open spec fn written_line(current: Level, r: LogRequest) -> Option<Seq<char>> {
    match (r.level, r.message) {
        (Some(l), Some(m)) => if level_rank(l) >= level_rank(current) {
            Some(m + "\n"@)
        } else {
            None
        },
        _ => None,
    }
}

/// The logger's level after the requests `reqs`, in order, from the level `initial`.
pub open spec fn level_in_force(initial: Level, reqs: Seq<LogRequest>) -> Level
    decreases reqs.len(),
{
    if reqs.len() == 0 {
        initial
    } else {
        next_level(level_in_force(initial, reqs.drop_last()), reqs.last())
    }
}

/// The lines that the requests `reqs`, in order, write from the level `initial`.
pub open spec fn lines_written(initial: Level, reqs: Seq<LogRequest>) -> Seq<Seq<char>>
    decreases reqs.len(),
{
    if reqs.len() == 0 {
        Seq::empty()
    } else {
        let before = lines_written(initial, reqs.drop_last());
        match written_line(level_in_force(initial, reqs.drop_last()), reqs.last()) {
            Some(line) => before.push(line),
            None => before,
        }
    }
}

/// Handles one request to the logging thread whose level is `level`: says what to do with
/// it (see `log_action_is`) and sets `level` when the request is a level alone. The exit
/// status, if any, is handed back unchanged: the process ends with it after the action.
pub fn log_step(level: &mut Level, event: LogEvent) -> (r: (LogAction, Option<i32>))
    ensures
        log_action_is(r.0, *old(level), event.level, message_view(event.message), event.has_output, event.has_syslog),
        *final(level) == next_level(*old(level), request_of(event)),
        match written_line(*old(level), request_of(event)) {
            Some(line) => r.0 matches LogAction::Write(l, _) && l@ == line,
            None => !(r.0 is Write),
        },
        r.1 == event.exit,
{
    let exit = event.exit;
    let action = match (event.level, event.message) {
        (Some(lvl), Some(msg)) => {
            if level.contains(&lvl) {
                let mut line = msg;
                line.append("\n");
                LogAction::Write(line, lvl)
            } else {
                LogAction::Filtered
            }
        },
        (Some(lvl), None) => {
            *level = lvl;
            LogAction::SetLevel
        },
        _ => {
            if event.has_output {
                LogAction::SetOutput
            } else if event.has_syslog {
                LogAction::SetSyslog
            } else {
                LogAction::Unknown
            }
        },
    };
    (action, exit)
}

} // verus!
