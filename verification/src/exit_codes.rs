//! Process exit codes and the error taxonomy of the audit.

use vstd::prelude::*;

verus! {

#[derive(Debug, Clone, Copy, PartialEq, Eq)]
pub enum ExitCode {
    Success,
    HasResults(bool),
    GeneralError,
    KilledBySigint,
}

/// The numeric process exit code each variant stands for.
pub open spec fn code_of(c: ExitCode) -> int {
    match c {
        ExitCode::Success => 0,
        ExitCode::HasResults(has_results) => if has_results {
            0
        } else {
            1
        },
        ExitCode::GeneralError => 1,
        ExitCode::KilledBySigint => 130,
    }
}

impl ExitCode {
    /// The numeric code handed to the operating system.
    pub fn code(self) -> (r: i32)
        ensures
            r == code_of(self),
    {
        match self {
            ExitCode::Success => 0,
            ExitCode::HasResults(has_results) => if has_results {
                0
            } else {
                1
            },
            ExitCode::GeneralError => 1,
            ExitCode::KilledBySigint => 130,
        }
    }

    pub fn is_error(self) -> (r: bool)
        ensures
            r == (code_of(self) != 0),
    {
        self.code() != 0
    }
}

/// General error if any code is an error, success otherwise.
pub fn merge_exitcodes(results: &Vec<ExitCode>) -> (r: ExitCode)
    ensures
        r == (if exists|i: int| 0 <= i < results@.len() && code_of(results@[i]) != 0 {
            ExitCode::GeneralError
        } else {
            ExitCode::Success
        }),
{
    let mut i: usize = 0;
    while i < results.len()
        invariant
            i <= results@.len(),
            forall|k: int| 0 <= k < i ==> code_of(results@[k]) == 0,
        decreases results@.len() - i,
    {
        if results[i].is_error() {
            return ExitCode::GeneralError;
        }
        i = i + 1;
    }
    ExitCode::Success
}

/// What went wrong, by consequence: a recoverable error names one skipped
/// input, a fatal one leaves nothing to classify against, and an abort is the
/// user's own deliberate stop.
#[derive(Debug, Clone, Copy, PartialEq, Eq)]
pub enum AuditError {
    RecoverableFile,
    FatalConfiguration,
    UserAbort,
}

} // verus!
