//! Log levels selectable on the command line.
use vstd::prelude::*;

verus! {

/// How much the program logs.
#[derive(Clone, Copy, Debug, PartialEq, Eq, Structural)]
pub enum LogLevel {
    Trace,
    Debug,
    Info,
    Warn,
    Error,
}

/// The name of a log level, as the logging filter expects it.
pub open spec fn level_name(level: LogLevel) -> Seq<char> {
    match level {
        LogLevel::Trace => seq!['t', 'r', 'a', 'c', 'e'],
        LogLevel::Debug => seq!['d', 'e', 'b', 'u', 'g'],
        LogLevel::Info => seq!['i', 'n', 'f', 'o'],
        LogLevel::Warn => seq!['w', 'a', 'r', 'n'],
        LogLevel::Error => seq!['e', 'r', 'r', 'o', 'r'],
    }
}

impl LogLevel {
    /// The name of the level: "trace", "debug", "info", "warn" or "error".
    pub fn as_str(&self) -> (r: &'static str)
        ensures
            r@ == level_name(*self),
    {
        proof {
            reveal_strlit("trace");
            reveal_strlit("debug");
            reveal_strlit("info");
            reveal_strlit("warn");
            reveal_strlit("error");
        }
        match self {
            LogLevel::Trace => {
                assert("trace"@ =~= seq!['t', 'r', 'a', 'c', 'e']);
                "trace"
            },
            LogLevel::Debug => {
                assert("debug"@ =~= seq!['d', 'e', 'b', 'u', 'g']);
                "debug"
            },
            LogLevel::Info => {
                assert("info"@ =~= seq!['i', 'n', 'f', 'o']);
                "info"
            },
            LogLevel::Warn => {
                assert("warn"@ =~= seq!['w', 'a', 'r', 'n']);
                "warn"
            },
            LogLevel::Error => {
                assert("error"@ =~= seq!['e', 'r', 'r', 'o', 'r']);
                "error"
            },
        }
    }
}

} // verus!
