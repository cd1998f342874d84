//! What is logged of a request, and at which level.

use vstd::prelude::*;
use vstd::string::*;
use crate::error::{is_success, spec_is_success, CustomError};
use crate::util::same_text;

verus! {

/// The level of a log line.
#[derive(Debug, Clone, Copy, PartialEq, Eq, Structural)]
pub enum Level {
    Error,
    Warn,
    Info,
    Debug,
    Trace,
}

/// The colour a level is written in.
#[derive(Debug, Clone, Copy, PartialEq, Eq, Structural)]
pub enum Color {
    Red,
    Yellow,
    Green,
    Blue,
    Magenta,
}

/// The colour and the name that a level is written with.
pub fn colored_level(level: Level) -> (painted: (Color, &'static str))
    ensures
        painted.0 == match level {
            Level::Error => Color::Red,
            Level::Warn => Color::Yellow,
            Level::Info => Color::Green,
            Level::Debug => Color::Blue,
            Level::Trace => Color::Magenta,
        },
        painted.1@ == match level {
            Level::Error => "ERROR"@,
            Level::Warn => "WARN"@,
            Level::Info => "INFO"@,
            Level::Debug => "DEBUG"@,
            Level::Trace => "TRACE"@,
        },
{
    match level {
        Level::Error => (Color::Red, "ERROR"),
        Level::Warn => (Color::Yellow, "WARN"),
        Level::Info => (Color::Green, "INFO"),
        Level::Debug => (Color::Blue, "DEBUG"),
        Level::Trace => (Color::Magenta, "TRACE"),
    }
}

/// The shape of a line in the log of the server framework.
#[derive(Debug, Clone, Copy, PartialEq, Eq, Structural)]
pub enum LineShape {
    /// A label in bold, then the message, both in the colour.
    Labelled(Color),
    /// The message in the colour.
    Plain(Color),
    /// An arrow, the place in the source, and the message on a line of
    /// its own.
    Located,
}

/// The shape of a line of the server framework: a line of the launch counts
/// as information whatever its level; errors and warnings carry a label
/// unless the line is indented under another; a debug line shows where it
/// comes from.
pub open spec fn line_shape(indented: bool, launch: bool, level: Level) -> LineShape {
    let level = if launch {
        Level::Info
    } else {
        level
    };
    match level {
        Level::Error => if indented {
            LineShape::Plain(Color::Red)
        } else {
            LineShape::Labelled(Color::Red)
        },
        Level::Warn => if indented {
            LineShape::Plain(Color::Yellow)
        } else {
            LineShape::Labelled(Color::Yellow)
        },
        Level::Info => LineShape::Plain(Color::Blue),
        Level::Trace => LineShape::Plain(Color::Magenta),
        Level::Debug => LineShape::Located,
    }
}

/// Picks the shape of a line of the server framework, given whether the
/// line is indented under another and whether it belongs to the launch.
pub fn rocket_line(indented: bool, launch: bool, level: Level) -> (shape: LineShape)
    ensures
        shape == line_shape(indented, launch, level),
{
    let level = if launch {
        Level::Info
    } else {
        level
    };
    match level {
        Level::Error => if indented {
            LineShape::Plain(Color::Red)
        } else {
            LineShape::Labelled(Color::Red)
        },
        Level::Warn => if indented {
            LineShape::Plain(Color::Yellow)
        } else {
            LineShape::Labelled(Color::Yellow)
        },
        Level::Info => LineShape::Plain(Color::Blue),
        Level::Trace => LineShape::Plain(Color::Magenta),
        Level::Debug => LineShape::Located,
    }
}

/// The label of a labelled line: `Error:` in red, `Warning:` in any other
/// colour.
pub fn label(color: Color) -> (text: &'static str)
    ensures
        text@ == if color == Color::Red {
            "Error:"@
        } else {
            "Warning:"@
        },
{
    match color {
        Color::Red => "Error:",
        _ => "Warning:",
    }
}

/// The most characters of a query that the log of requests shows.
pub const QUERY_SHOWN: usize = 30;

/// The start of a query as the log of requests shows it: its first
/// `QUERY_SHOWN` characters.
pub open spec fn query_start(query: Seq<char>) -> Seq<char> {
    if query.len() <= QUERY_SHOWN {
        query
    } else {
        query.take(QUERY_SHOWN as int)
    }
}

/// The path of the liveness probe, whose requests are kept out of the
/// log.
pub open spec fn probe_path() -> Seq<char> {
    "/alive"@
}

/// Whether `text` begins with `prefix`.
pub open spec fn begins_with(text: Seq<char>, prefix: Seq<char>) -> bool {
    prefix.len() <= text.len() && text.take(prefix.len() as int) == prefix
}

/// The level at which the answer to a request is logged: debug for the
/// liveness probe, info for any other answer of the success class, a warning
/// for the rest.
pub open spec fn level_of(path: Seq<char>, status: u16) -> Level {
    if spec_is_success(status) {
        if path == probe_path() {
            Level::Debug
        } else {
            Level::Info
        }
    } else {
        Level::Warn
    }
}

/// A path as it is logged: with its query behind a `?`, where it has one.
pub open spec fn logged_path(path: Seq<char>, query: Option<Seq<char>>) -> Seq<char> {
    match query {
        Some(q) => path + "?"@ + q,
        None => path,
    }
}

/// Tells whether `text` begins with `prefix`.
pub fn starts_with(text: &str, prefix: &str) -> (r: bool)
    ensures
        r == begins_with(text@, prefix@),
{
    let n: usize = prefix.unicode_len();
    if text.unicode_len() < n {
        return false;
    }
    same_text(text.substring_char(0, n), prefix)
}

/// The log of requests and answers.
#[derive(Debug, Clone, Copy, PartialEq, Eq, Structural)]
pub struct Logging();

impl Logging {
    /// Whether requests for `path` are logged at all: all but those of the
    /// liveness probe.
    pub fn is_logged(&self, path: &str) -> (logged: bool)
        ensures
            logged == !begins_with(path@, probe_path()),
    {
        !starts_with(path, "/alive")
    }

    /// The level at which the answer `status` to a request for `path` is
    /// logged.
    pub fn level(&self, path: &str, status: u16) -> (level: Level)
        ensures
            level == level_of(path@, status),
    {
        if is_success(status) {
            if same_text(path, "/alive") {
                Level::Debug
            } else {
                Level::Info
            }
        } else {
            Level::Warn
        }
    }

    /// The level at which an answer is logged where only failures stand
    /// out: an error from status 400 on, info below.
    pub fn severity(&self, status: u16) -> (level: Level)
        ensures
            level == if status >= 400 {
                Level::Error
            } else {
                Level::Info
            },
    {
        if status >= 400 {
            Level::Error
        } else {
            Level::Info
        }
    }

    /// Whether the rank of a route is shown in the list of routes: a rank
    /// that was set, which is not negative.
    pub fn shows_rank(&self, rank: isize) -> (shown: bool)
        ensures
            shown == (rank >= 0),
    {
        rank >= 0
    }

    /// The start of a query as the log of requests shows it.
    pub fn short_query<'a>(&self, query: &'a str) -> (shown: &'a str)
        ensures
            shown@ == query_start(query@),
    {
        let n: usize = query.unicode_len();
        if n <= QUERY_SHOWN {
            assert(query@.subrange(0, n as int) =~= query@);
            query.substring_char(0, n)
        } else {
            query.substring_char(0, QUERY_SHOWN)
        }
    }

    /// The path of a request as it is logged.
    pub fn path_query(&self, path: &str, query: Option<&str>) -> (logged: String)
        ensures
            logged@ == logged_path(path@, query.deep_view()),
    {
        let mut logged = String::from_str(path);
        if let Some(q) = query {
            logged.append("?");
            logged.append(q);
        }
        logged
    }
}

/// The answer to the liveness probe: the time of the answer while the
/// background task runs, an internal error once it has ended.
pub fn alive(task_finished: bool, now: String) -> (answer: Result<String, CustomError>)
    ensures
        match answer {
            Ok(time) => !task_finished && time@ == now@,
            Err(error) => task_finished && error.reason@ == "background task failed"@
                && error.status == crate::error::STATUS_INTERNAL_SERVER_ERROR,
        },
{
    if task_finished {
        return Err(CustomError::reason(String::from_str("background task failed")));
    }
    Ok(now)
}

} // verus!
