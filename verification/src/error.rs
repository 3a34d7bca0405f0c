use vstd::prelude::*;

verus! {

/// Failure classes of a request, each with a stable machine code and exit status.
#[derive(Clone, Copy, Debug, PartialEq, Eq, Structural)]
pub enum CliError {
    /// The input was rejected by the bounded path policy.
    Input,
    /// The artifact failed validation.
    Validation,
    /// Deterministic replay diverged from the recorded states.
    Replay,
    /// The response exceeded the configured output bound.
    OutputBound,
    /// Internal serialization failed.
    Internal,
}

impl CliError {
    pub open spec fn spec_code(self) -> Seq<char> {
        match self {
            CliError::Input => "input_policy"@,
            CliError::Validation => "validation"@,
            CliError::Replay => "replay"@,
            CliError::OutputBound => "output_bound"@,
            CliError::Internal => "internal"@,
        }
    }

    pub open spec fn spec_exit_code(self) -> i32 {
        match self {
            CliError::Input => 3,
            CliError::Validation => 4,
            CliError::Replay => 5,
            CliError::OutputBound => 6,
            CliError::Internal => 70,
        }
    }

    pub open spec fn spec_message(self) -> Seq<char> {
        match self {
            CliError::Input => "input rejected by bounded path policy"@,
            CliError::Validation => "artifact failed validation"@,
            CliError::Replay => "deterministic replay failed"@,
            CliError::OutputBound => "response exceeded the configured output bound"@,
            CliError::Internal => "internal serialization failed"@,
        }
    }

    /// The stable machine-readable code of this failure.
    pub fn code(&self) -> (code: &'static str)
        ensures
            code@ == self.spec_code(),
    {
        match self {
            CliError::Input => "input_policy",
            CliError::Validation => "validation",
            CliError::Replay => "replay",
            CliError::OutputBound => "output_bound",
            CliError::Internal => "internal",
        }
    }

    /// The process exit status of this failure.
    pub fn exit_code(&self) -> (code: i32)
        ensures
            code == self.spec_exit_code(),
    {
        match self {
            CliError::Input => 3,
            CliError::Validation => 4,
            CliError::Replay => 5,
            CliError::OutputBound => 6,
            CliError::Internal => 70,
        }
    }

    /// The human-readable description of this failure.
    pub fn message(&self) -> (message: &'static str)
        ensures
            message@ == self.spec_message(),
    {
        match self {
            CliError::Input => "input rejected by bounded path policy",
            CliError::Validation => "artifact failed validation",
            CliError::Replay => "deterministic replay failed",
            CliError::OutputBound => "response exceeded the configured output bound",
            CliError::Internal => "internal serialization failed",
        }
    }
}

} // verus!
