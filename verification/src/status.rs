use vstd::prelude::*;

verus! {

/// The interpreter's integer status for a successful command.
pub const EXECUTION_SUCCESS: i32 = 0;

/// The interpreter's non-local-exit status: a builtin returning this code
/// tells the interpreter to unwind the current evaluation instead of treating
/// the value as an ordinary command result.
pub const EX_LONGJMP: i32 = 263;

/// Result of running a builtin: success, an ordinary numeric failure, or a
/// raised internal error that must unwind the interpreter.
#[derive(Debug, PartialEq, Eq, Clone, Copy, Structural)]
pub enum ExecStatus {
    Success,
    Failure(i32),
    Error,
}

impl ExecStatus {
    /// The integer code handed back to the interpreter for this status.
    pub open spec fn spec_code(self) -> i32 {
        match self {
            ExecStatus::Success => EXECUTION_SUCCESS,
            ExecStatus::Failure(n) => n,
            ExecStatus::Error => EX_LONGJMP,
        }
    }

    /// The status read back from an interpreter return code: zero is success,
    /// anything else an ordinary failure.
    pub open spec fn spec_of_code(n: i32) -> ExecStatus {
        if n == 0 {
            ExecStatus::Success
        } else {
            ExecStatus::Failure(n)
        }
    }

    /// Success is the only truthy status.
    pub open spec fn spec_truthy(self) -> bool {
        self is Success
    }
}

impl From<ExecStatus> for i32 {
    fn from(exec: ExecStatus) -> i32 {
        match exec {
            ExecStatus::Success => EXECUTION_SUCCESS,
            ExecStatus::Failure(n) => n,
            ExecStatus::Error => EX_LONGJMP,
        }
    }
}

impl vstd::std_specs::convert::FromSpecImpl<ExecStatus> for i32 {
    open spec fn obeys_from_spec() -> bool {
        true
    }

    open spec fn from_spec(v: ExecStatus) -> i32 {
        v.spec_code()
    }
}

impl From<i32> for ExecStatus {
    fn from(ret: i32) -> ExecStatus {
        if ret == 0 {
            ExecStatus::Success
        } else {
            ExecStatus::Failure(ret)
        }
    }
}

impl vstd::std_specs::convert::FromSpecImpl<i32> for ExecStatus {
    open spec fn obeys_from_spec() -> bool {
        true
    }

    open spec fn from_spec(v: i32) -> ExecStatus {
        ExecStatus::spec_of_code(v)
    }
}

impl From<bool> for ExecStatus {
    fn from(value: bool) -> ExecStatus {
        if value {
            ExecStatus::Success
        } else {
            ExecStatus::Failure(1)
        }
    }
}

impl vstd::std_specs::convert::FromSpecImpl<bool> for ExecStatus {
    open spec fn obeys_from_spec() -> bool {
        true
    }

    open spec fn from_spec(v: bool) -> ExecStatus {
        if v {
            ExecStatus::Success
        } else {
            ExecStatus::Failure(1)
        }
    }
}

impl<'a> From<&'a ExecStatus> for bool {
    fn from(exec: &'a ExecStatus) -> bool {
        matches!(exec, ExecStatus::Success)
    }
}

impl<'a> vstd::std_specs::convert::FromSpecImpl<&'a ExecStatus> for bool {
    open spec fn obeys_from_spec() -> bool {
        true
    }

    open spec fn from_spec(v: &'a ExecStatus) -> bool {
        v.spec_truthy()
    }
}

} // verus!
