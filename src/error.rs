//! Error kinds carried through the library.

use vstd::prelude::*;

verus! {

/// A position in a source text.
#[derive(Clone, Debug, PartialEq, Eq)]
pub struct Span {
    pub start: usize,
    pub end: usize,
    pub line: usize,
    pub column: usize,
}

/// The errors that the library reports.
#[derive(Clone, Debug)]
pub enum AuroraError {
    /// No Beamfile in the given directory or any parent.
    BeamfileNotFound(String),
    /// A file could not be read.
    FileRead { path: String, cause: String },
    /// The Beamfile text does not follow the grammar.
    Parse { message: String, span: Option<Span> },
    /// A beam name that the Beamfile does not define.
    BeamNotFound(String),
    /// The dependency relation has a cycle.
    CycleDetected(String),
    /// A variable that is not defined.
    VariableNotFound(String),
    /// A string could not be interpolated.
    Interpolation { message: String },
    /// A condition could not be evaluated.
    ConditionFailed(String),
    /// A command could not be run, or ran and failed.
    CommandFailed { command: String, exit_code: Option<i32>, stderr: Option<String> },
    /// A plugin failed.
    Plugin(String),
    /// An I/O failure.
    Io(String),
}

impl AuroraError {
    /// A one-line description of the error.
    pub fn to_message(&self) -> (r: String) {
        match self {
            AuroraError::BeamfileNotFound(p) => {
                String::from_str("Beamfile not found in ").concat(p.as_str()).concat(
                    " or any parent directory",
                )
            },
            AuroraError::FileRead { path, cause } => {
                String::from_str("Failed to read file: ").concat(path.as_str()).concat(": ").concat(
                    cause.as_str(),
                )
            },
            AuroraError::Parse { message, .. } => {
                String::from_str("Parse error: ").concat(message.as_str())
            },
            AuroraError::BeamNotFound(n) => {
                String::from_str("Beam '").concat(n.as_str()).concat("' not found")
            },
            AuroraError::CycleDetected(d) => {
                String::from_str("Dependency cycle detected: ").concat(d.as_str())
            },
            AuroraError::VariableNotFound(n) => {
                String::from_str("Variable '").concat(n.as_str()).concat("' not found")
            },
            AuroraError::Interpolation { message } => {
                String::from_str("Interpolation error: ").concat(message.as_str())
            },
            AuroraError::ConditionFailed(m) => {
                String::from_str("Condition evaluation failed: ").concat(m.as_str())
            },
            AuroraError::CommandFailed { command, .. } => {
                String::from_str("Command execution failed: ").concat(command.as_str())
            },
            AuroraError::Plugin(m) => String::from_str("Plugin error: ").concat(m.as_str()),
            AuroraError::Io(m) => String::from_str("IO error: ").concat(m.as_str()),
        }
    }
}

} // verus!
