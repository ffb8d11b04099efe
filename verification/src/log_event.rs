//! Log levels and the log event record.

use crate::date_time::Timestamp;
use crate::text::str_eq;
use vstd::prelude::*;

verus! {

/// Severity of a log event.
#[derive(Debug, Clone, Copy, PartialEq, Eq, Structural)]
pub enum LogLevel {
    Info,
    Warning,
    Error,
    FatalError,
    Debug,
}

impl LogLevel {
    /// The numeric code of a level.
    pub open spec fn code(self) -> u8 {
        match self {
            LogLevel::Info => 0,
            LogLevel::Warning => 1,
            LogLevel::Error => 2,
            LogLevel::FatalError => 3,
            LogLevel::Debug => 4,
        }
    }

    /// The level that a numeric code stands for; codes that no level has
    /// stand for `Info`.
    pub open spec fn of_code(value: u8) -> LogLevel {
        if value == 1 {
            LogLevel::Warning
        } else if value == 2 {
            LogLevel::Error
        } else if value == 3 {
            LogLevel::FatalError
        } else if value == 4 {
            LogLevel::Debug
        } else {
            LogLevel::Info
        }
    }

    /// The name of a level.
    pub open spec fn name(self) -> Seq<char> {
        match self {
            LogLevel::Info => "Info"@,
            LogLevel::Warning => "Warning"@,
            LogLevel::Error => "Error"@,
            LogLevel::FatalError => "FatalError"@,
            LogLevel::Debug => "Debug"@,
        }
    }

    /// The level that a name stands for; names that no level has stand for
    /// `Info`.
    pub open spec fn of_name(src: Seq<char>) -> LogLevel {
        if src == "Warning"@ {
            LogLevel::Warning
        } else if src == "Error"@ {
            LogLevel::Error
        } else if src == "FatalError"@ {
            LogLevel::FatalError
        } else if src == "Debug"@ {
            LogLevel::Debug
        } else {
            LogLevel::Info
        }
    }

    pub fn to_u8(&self) -> (code: u8)
        ensures
            code == self.code(),
    {
        match self {
            LogLevel::Info => 0,
            LogLevel::Warning => 1,
            LogLevel::Error => 2,
            LogLevel::FatalError => 3,
            LogLevel::Debug => 4,
        }
    }

    pub fn from_u8(value: u8) -> (level: Self)
        ensures
            level == Self::of_code(value),
    {
        match value {
            1 => Self::Warning,
            2 => Self::Error,
            3 => Self::FatalError,
            4 => Self::Debug,
            _ => Self::Info,
        }
    }

    pub fn from_str(src: &str) -> (level: Self)
        ensures
            level == Self::of_name(src@),
    {
        if str_eq(src, "Warning") {
            Self::Warning
        } else if str_eq(src, "Error") {
            Self::Error
        } else if str_eq(src, "FatalError") {
            Self::FatalError
        } else if str_eq(src, "Debug") {
            Self::Debug
        } else {
            Self::Info
        }
    }

    pub fn as_str(&self) -> (name: &'static str)
        ensures
            name@ == self.name(),
    {
        match self {
            LogLevel::Info => "Info",
            LogLevel::Warning => "Warning",
            LogLevel::Error => "Error",
            LogLevel::FatalError => "FatalError",
            LogLevel::Debug => "Debug",
        }
    }

    /// Same as [`LogLevel::as_str`].
    pub fn to_string(&self) -> (name: &'static str)
        ensures
            name@ == self.name(),
    {
        self.as_str()
    }

    pub fn is_error_or_fatal_error(&self) -> (answer: bool)
        ensures
            answer == (*self == LogLevel::Error || *self == LogLevel::FatalError),
    {
        match self {
            LogLevel::Error => true,
            LogLevel::FatalError => true,
            _ => false,
        }
    }
}

/// Every level is the level of its own code.
pub proof fn lemma_level_code_round_trip(level: LogLevel)
    ensures
        LogLevel::of_code(level.code()) == level,
{
}

/// Every level is the level of its own name.
pub proof fn lemma_level_name_round_trip(level: LogLevel)
    ensures
        LogLevel::of_name(level.name()) == level,
{
    reveal_strlit("Info");
    reveal_strlit("Warning");
    reveal_strlit("Error");
    reveal_strlit("FatalError");
    reveal_strlit("Debug");
    assert("Info"@.len() == 4);
    assert("Warning"@.len() == 7);
    assert("Error"@.len() == 5);
    assert("FatalError"@.len() == 10);
    assert("Debug"@[0] == 'D');
    assert("Error"@[0] == 'E');
}

/// The context of an event as a mathematical value: keys and values in the
/// order in which they are rendered.
pub type ContextModel = Seq<(Seq<char>, Seq<char>)>;

/// A log event as a mathematical value.
pub struct MyLogEventModel {
    pub dt: int,
    pub level: LogLevel,
    pub process: Seq<char>,
    pub message: Seq<char>,
    pub context: Option<ContextModel>,
}

/// One structured log record.
#[derive(Debug)]
pub struct MyLogEvent {
    pub dt: Timestamp,
    pub level: LogLevel,
    pub process: String,
    pub message: String,
    pub context: Option<Vec<(String, String)>>,
}

impl View for MyLogEvent {
    type V = MyLogEventModel;

    open spec fn view(&self) -> MyLogEventModel {
        MyLogEventModel {
            dt: self.dt.unix_microseconds as int,
            level: self.level,
            process: self.process@,
            message: self.message@,
            context: self.context.deep_view(),
        }
    }
}

} // verus!
