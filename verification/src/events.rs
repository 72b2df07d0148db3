//! What the service tells of what it does.
use vstd::prelude::*;

use crate::text::same_text;

verus! {

/// Something that the service tells.
#[derive(Clone, Debug)]
pub struct EventPayload {
    pub ts: String,
    pub kind: String,
    pub level: String,
    pub message: String,
}

/// How important an event is.
#[derive(Clone, Copy, Debug, PartialEq, Eq, Structural)]
pub enum LogLevel {
    Error,
    Warn,
    Info,
}

pub open spec fn level_of(level: Seq<char>) -> LogLevel {
    if level == "err"@ || level == "error"@ {
        LogLevel::Error
    } else if level == "warn"@ || level == "warning"@ {
        LogLevel::Warn
    } else {
        LogLevel::Info
    }
}

/// How important an event with the level is.
pub fn log_level(level: &str) -> (r: LogLevel)
    ensures
        r == level_of(level@),
{
    if same_text(level, "err") || same_text(level, "error") {
        LogLevel::Error
    } else if same_text(level, "warn") || same_text(level, "warning") {
        LogLevel::Warn
    } else {
        LogLevel::Info
    }
}

/// The levels by their names; what has no such name is told as it is.
pub proof fn law_levels_named(other: Seq<char>)
    ensures
        level_of("err"@) == LogLevel::Error,
        level_of("error"@) == LogLevel::Error,
        level_of("warn"@) == LogLevel::Warn,
        level_of("warning"@) == LogLevel::Warn,
        level_of("info"@) == LogLevel::Info,
        level_of(other) != LogLevel::Info ==> other == "err"@ || other == "error"@ || other
            == "warn"@ || other == "warning"@,
{
    reveal_strlit("err");
    reveal_strlit("error");
    reveal_strlit("warn");
    reveal_strlit("warning");
    reveal_strlit("info");
    assert("err"@[0] == 'e' && "error"@[0] == 'e' && "warn"@[0] == 'w' && "warning"@[0] == 'w'
        && "info"@[0] == 'i');
}

} // verus!
