//! The guest program's logger: which records pass, and the line that a
//! record becomes.

use vstd::prelude::*;
use vstd::string::*;

verus! {

/// The severity of a record, the most severe first.
#[derive(Clone, Copy, Debug, PartialEq, Eq, Structural)]
pub enum Level {
    Error,
    Warn,
    Info,
    Debug,
    Trace,
}

impl Level {
    /// The level's place in the order: 1 for the most severe.
    pub open spec fn spec_rank(self) -> u8 {
        match self {
            Level::Error => 1,
            Level::Warn => 2,
            Level::Info => 3,
            Level::Debug => 4,
            Level::Trace => 5,
        }
    }

    /// The level's name as it stands in a line.
    pub open spec fn spec_name(self) -> Seq<char> {
        match self {
            Level::Error => "ERROR"@,
            Level::Warn => "WARN"@,
            Level::Info => "INFO"@,
            Level::Debug => "DEBUG"@,
            Level::Trace => "TRACE"@,
        }
    }

    /// The level's place in the order: 1 for the most severe.
    #[verifier::when_used_as_spec(spec_rank)]
    pub fn rank(self) -> (r: u8)
        ensures
            r == self.spec_rank(),
    {
        match self {
            Level::Error => 1,
            Level::Warn => 2,
            Level::Info => 3,
            Level::Debug => 4,
            Level::Trace => 5,
        }
    }

    /// The level's name as it stands in a line.
    pub fn name(self) -> (n: &'static str)
        ensures
            n@ == self.spec_name(),
    {
        match self {
            Level::Error => "ERROR",
            Level::Warn => "WARN",
            Level::Info => "INFO",
            Level::Debug => "DEBUG",
            Level::Trace => "TRACE",
        }
    }
}

/// The line of a record: a carriage return, the level's name, the message,
/// and the end of the line.
pub open spec fn line_of(level: Level, message: Seq<char>) -> Seq<char> {
    "\r"@ + level.spec_name() + " - "@ + message + "\r\n"@
}

/// A logger that passes the records at or above its level.
#[derive(Clone, Copy, Debug, PartialEq, Eq, Structural)]
pub struct WasmLogger(pub Level);

impl WasmLogger {
    /// The logger as a guest program installs it: it passes `Info` and
    /// what is more severe.
    pub fn init() -> (logger: WasmLogger)
        ensures
            logger == WasmLogger(Level::Info),
    {
        WasmLogger(Level::Info)
    }

    /// The least severe level that passes.
    pub fn max_level(&self) -> (level: Level)
        ensures
            level == self.0,
    {
        self.0
    }

    /// Whether a record of `level` passes.
    pub fn enabled(&self, level: Level) -> (b: bool)
        ensures
            b == (level.spec_rank() <= self.0.spec_rank()),
    {
        level.rank() <= self.0.rank()
    }

    /// The line to write for a record, or `None` where the record does not
    /// pass.
    pub fn log(&self, level: Level, message: &str) -> (line: Option<String>)
        ensures
            match line {
                Some(text) => level.spec_rank() <= self.0.spec_rank() && text@ == line_of(
                    level,
                    message@,
                ),
                None => level.spec_rank() > self.0.spec_rank(),
            },
    {
        if !self.enabled(level) {
            return None;
        }
        let mut line = "\r".to_owned();
        line.append(level.name());
        line.append(" - ");
        line.append(message);
        line.append("\r\n");
        Some(line)
    }
}

} // verus!
