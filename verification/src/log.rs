//! Logging settings.
use vstd::prelude::*;

verus! {

/// How log lines are written.
#[derive(Debug, Clone, Copy, PartialEq, Eq, Default)]
pub enum LogFormat {
    #[default]
    Human,
    Json,
}

/// How much is logged: 0 warnings, 1 information, 2 debugging, more tracing.
#[derive(Debug, Clone, Copy, Default, PartialEq, Eq)]
pub struct Verbosity(pub u8);

/// The name of the log level for a verbosity.
pub open spec fn filter_name(level: u8) -> Seq<char> {
    if level == 0 {
        "warn"@
    } else if level == 1 {
        "info"@
    } else if level == 2 {
        "debug"@
    } else {
        "trace"@
    }
}

impl Verbosity {
    /// The log filter for this verbosity.
    pub fn to_filter_string(self) -> (res: &'static str)
        ensures
            res@ == filter_name(self.0),
    {
        match self.0 {
            0 => "warn",
            1 => "info",
            2 => "debug",
            _ => "trace",
        }
    }
}

} // verus!
